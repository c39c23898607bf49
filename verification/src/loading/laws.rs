//! What loading a profile leaves on the disk.
use vstd::prelude::*;

#[allow(unused_imports)]
use super::plan::{local_steps, LocalFolders};
#[allow(unused_imports)]
use super::{
    environment_steps, folder_steps, FolderFacts, GameFacts, LoadStepModel, CHARACTER_POOL, CONFIG,
    PHOTOBOOTH, SAVE_DATA,
};
#[allow(unused_imports)]
use crate::paths::{
    extension_set, is_directory_path, is_plain_name, joined, names_lie_in_their_directory,
};
#[allow(unused_imports)]
use crate::snapshot::basic::is_at;
#[allow(unused_imports)]
use crate::snapshot::tree::is_under;

verus! {

/// What is at a path of the disk.
pub enum Place {
    Dir,
    File(Seq<u8>),
    /// A link to what is at another path.
    Link(Seq<char>),
    /// The list of active mods.
    ModList,
}

pub type Disk = Map<Seq<char>, Place>;

/// Whether a step can be done: what it takes is there, and what it makes is not.
pub open spec fn can_be_done(disk: Disk, step: LoadStepModel) -> bool {
    match step {
        LoadStepModel::Rename(from, to) => disk.dom().contains(from) && !disk.dom().contains(to),
        LoadStepModel::RemoveDir(_) => true,
        LoadStepModel::CreateDir(path) => !disk.dom().contains(path),
        LoadStepModel::Copy(from, _) => disk.dom().contains(from),
        LoadStepModel::WriteModList(_) => true,
        LoadStepModel::LinkDir(_, to) => !disk.dom().contains(to),
    }
}

/// The disk without what is at a path and below it.
pub open spec fn removed(disk: Disk, path: Seq<char>) -> Disk {
    Map::new(|p: Seq<char>| disk.dom().contains(p) && !is_at(p, path), |p: Seq<char>| disk[p])
}

/// Where something was before its directory got another path.
pub open spec fn came_from(p: Seq<char>, from: Seq<char>, to: Seq<char>) -> Seq<char> {
    from + p.skip(to.len() as int)
}

/// The disk after what is at a path and below it got another one.
pub open spec fn renamed(disk: Disk, from: Seq<char>, to: Seq<char>) -> Disk {
    Map::new(
        |p: Seq<char>|
            if is_at(p, to) {
                disk.dom().contains(came_from(p, from, to))
            } else {
                disk.dom().contains(p) && !is_at(p, from)
            },
        |p: Seq<char>|
            if is_at(p, to) {
                disk[came_from(p, from, to)]
            } else {
                disk[p]
            },
    )
}

/// The disk after a step.
pub open spec fn done(disk: Disk, step: LoadStepModel) -> Disk {
    match step {
        LoadStepModel::Rename(from, to) => renamed(disk, from, to),
        LoadStepModel::RemoveDir(path) => removed(disk, path),
        LoadStepModel::CreateDir(path) => disk.insert(path, Place::Dir),
        LoadStepModel::Copy(from, to) => disk.insert(to, disk[from]),
        LoadStepModel::WriteModList(path) => disk.insert(path, Place::ModList),
        LoadStepModel::LinkDir(from, to) => disk.insert(to, Place::Link(from)),
    }
}

/// The disk after steps, and whether all of them could be done.
pub open spec fn all_done(disk: Disk, steps: Seq<LoadStepModel>) -> (Disk, bool)
    decreases steps.len(),
{
    if steps.len() == 0 {
        (disk, true)
    } else {
        let (before, well) = all_done(disk, steps.drop_last());
        (done(before, steps.last()), well && can_be_done(before, steps.last()))
    }
}

proof fn lemma_done_in_turn(disk: Disk, a: Seq<LoadStepModel>, b: Seq<LoadStepModel>)
    ensures
        all_done(disk, a + b).0 == all_done(all_done(disk, a).0, b).0,
        all_done(disk, a + b).1 == (all_done(disk, a).1 && all_done(all_done(disk, a).0, b).1),
    decreases b.len(),
{
    if b.len() == 0 {
        assert(a + b =~= a);
    } else {
        lemma_done_in_turn(disk, a, b.drop_last());
        assert((a + b).drop_last() =~= a + b.drop_last());
        assert((a + b).last() == b.last());
    }
}

proof fn lemma_one_done(disk: Disk, step: LoadStepModel)
    ensures
        all_done(disk, seq![step]) == (done(disk, step), can_be_done(disk, step)),
{
    assert(seq![step].drop_last() =~= Seq::empty());
    assert(all_done(disk, Seq::empty()) == (disk, true));
}

/// The directories that something lies in lie in each other.
proof fn lemma_nested(p: Seq<char>, a: Seq<char>, b: Seq<char>)
    requires
        is_at(p, a),
        is_at(p, b),
    ensures
        is_at(a, b) || is_at(b, a),
{
    let n = a.len() as int;
    let m = b.len() as int;
    assert(p.take(n) =~= a);
    assert(p.take(m) =~= b);
    if n < m {
        assert(b.take(n) =~= a);
        assert(b[n] == p[n]);
    } else if m < n {
        assert(a.take(m) =~= b);
        assert(a[m] == p[m]);
    } else {
        assert(a == b);
    }
}

proof fn lemma_at_is_transitive(p: Seq<char>, a: Seq<char>, b: Seq<char>)
    requires
        is_at(p, a),
        is_at(a, b),
    ensures
        is_at(p, b),
{
    if p != a && a != b {
        assert(p.take(b.len() as int) =~= a.take(b.len() as int));
        assert(p[b.len() as int] == a[b.len() as int]);
    }
}

/// Whether neither of two paths lies in the other.
pub open spec fn apart(a: Seq<char>, b: Seq<char>) -> bool {
    !is_at(a, b) && !is_at(b, a)
}

proof fn lemma_apart_below(a: Seq<char>, b: Seq<char>, p: Seq<char>, q: Seq<char>)
    requires
        apart(a, b),
        is_at(p, a),
        is_at(q, b),
    ensures
        apart(p, q),
        p != q,
{
    if is_at(p, q) {
        lemma_at_is_transitive(p, q, b);
        lemma_nested(p, a, b);
    }
    if is_at(q, p) {
        lemma_at_is_transitive(q, p, a);
        lemma_nested(q, a, b);
    }
}

/// The path of something in a directory.
pub open spec fn within(dir: Seq<char>, name: Seq<char>) -> Seq<char> {
    dir + seq!['/'] + name
}

/// The path under which something is kept that was there before.
pub open spec fn kept_at(path: Seq<char>) -> Seq<char> {
    path + seq!['.', 'b', 'a', 'k']
}

/// Whether what was found of a folder is what is on the disk. A link that leads nowhere is
/// not found to be there.
pub open spec fn folder_is_so(
    disk: Disk,
    local: Seq<char>,
    profile: Seq<char>,
    name: Seq<char>,
    facts: FolderFacts,
) -> bool {
    let place = within(local, name);
    &&& facts.exists ==> disk.dom().contains(place)
    &&& disk.dom().contains(place) && !facts.exists ==> disk[place] is Link
    &&& disk.dom().contains(place) ==> facts.is_link == (disk[place] is Link)
    &&& disk.dom().contains(place) && !(disk[place] is Link) ==> facts.is_dir == (
    disk[place] is Dir)
    &&& facts.backup == disk.dom().contains(kept_at(place))
    &&& facts.source == disk.dom().contains(within(profile, name))
}

/// What linking a folder of a profile leaves on the disk: a link at the place of the game's
/// folder, and nothing below it. The profile's folder is as it was, and empty where there was
/// none. A directory that was at the place is kept under another name, unless one is kept
/// already. Nothing else changed.
pub open spec fn folder_is_linked(
    disk: Disk,
    after: Disk,
    local: Seq<char>,
    profile: Seq<char>,
    name: Seq<char>,
) -> bool {
    let place = within(local, name);
    let own = within(profile, name);
    let backup = kept_at(place);
    &&& after.dom().contains(place) && after[place] == Place::Link(own)
    &&& forall|p: Seq<char>| #[trigger] is_under(p, place) ==> !after.dom().contains(p)
    &&& after.dom().contains(own)
    &&& !disk.dom().contains(own) ==> after[own] is Dir
    &&& disk.dom().contains(own) ==> after[own] == disk[own]
    &&& disk.dom().contains(place) && disk[place] is Dir && !disk.dom().contains(backup)
        ==> forall|p: Seq<char>|
        #![trigger after.dom().contains(p)]
        is_at(p, backup) ==> after.dom().contains(p) == disk.dom().contains(
            came_from(p, place, backup),
        ) && (after.dom().contains(p) ==> after[p] == disk[came_from(p, place, backup)])
    &&& disk.dom().contains(backup) ==> forall|p: Seq<char>|
        #![trigger after.dom().contains(p)]
        is_at(p, backup) ==> after.dom().contains(p) == disk.dom().contains(p) && (
        after.dom().contains(p) ==> after[p] == disk[p])
    &&& forall|p: Seq<char>|
        #![trigger after.dom().contains(p)]
        !is_at(p, place) && !is_at(p, backup) && p != own ==> after.dom().contains(p)
            == disk.dom().contains(p) && (after.dom().contains(p) ==> after[p] == disk[p])
}

proof fn lemma_folder_paths(dir: Seq<char>, name: Seq<char>)
    requires
        is_directory_path(dir),
        is_plain_name(name),
    ensures
        joined(dir, name) == within(dir, name),
        extension_set(joined(dir, name), "bak"@) == kept_at(within(dir, name)),
        is_at(within(dir, name), dir),
        is_at(kept_at(within(dir, name)), dir),
        apart(within(dir, name), kept_at(within(dir, name))),
{
    reveal_strlit("bak");
    let bak = "bak"@;
    assert(bak =~= seq!['b', 'a', 'k']);
    assert(is_plain_name(bak)) by {
        if bak.contains('/') {
            let i = choose|i: int| 0 <= i < bak.len() && bak[i] == '/';
        }
        if bak.contains('.') {
            let i = choose|i: int| 0 <= i < bak.len() && bak[i] == '.';
        }
    }
    names_lie_in_their_directory(dir, name, bak);
    let place = within(dir, name);
    let kept = kept_at(place);
    assert(dir + seq!['/'] + name + seq!['.'] + bak =~= kept);
    assert(place.take(dir.len() as int) =~= dir);
    assert(place[dir.len() as int] == '/');
    assert(kept.take(dir.len() as int) =~= dir);
    assert(kept[dir.len() as int] == '/');
    assert(kept[place.len() as int] == '.');
}

/// Linking a folder of a profile into the game's can always be done, and leaves a link to it
/// where the game looks for it. Nothing of the profile's is lost, nor what was there before.
#[verifier::spinoff_prover]
#[verifier::rlimit(60)]
pub proof fn linking_a_folder_loses_nothing(
    disk: Disk,
    local: Seq<char>,
    profile: Seq<char>,
    name: Seq<char>,
    facts: FolderFacts,
)
    requires
        is_directory_path(local),
        is_directory_path(profile),
        apart(local, profile),
        is_plain_name(name),
        folder_is_so(disk, local, profile, name, facts),
    ensures
        all_done(disk, folder_steps(local, profile, name, facts)).1,
        folder_is_linked(
            disk,
            all_done(disk, folder_steps(local, profile, name, facts)).0,
            local,
            profile,
            name,
        ),
{
    let place = within(local, name);
    let own = within(profile, name);
    let backup = kept_at(place);
    lemma_folder_paths(local, name);
    lemma_folder_paths(profile, name);
    lemma_apart_below(local, profile, place, own);
    lemma_apart_below(local, profile, backup, own);
    let steps = folder_steps(local, profile, name, facts);
    let keeps = facts.exists && !facts.is_link && facts.is_dir && !facts.backup;
    let kept = if keeps {
        seq![LoadStepModel::Rename(place, backup)]
    } else {
        Seq::empty()
    };
    let cleared = seq![LoadStepModel::RemoveDir(place)];
    let made = if facts.source {
        Seq::empty()
    } else {
        seq![LoadStepModel::CreateDir(own)]
    };
    let linked = seq![LoadStepModel::LinkDir(own, place)];
    assert(steps =~= kept + cleared + made + linked);
    lemma_done_in_turn(disk, kept + cleared + made, linked);
    lemma_done_in_turn(disk, kept + cleared, made);
    lemma_done_in_turn(disk, kept, cleared);
    let one = all_done(disk, kept).0;
    let two = all_done(one, cleared).0;
    let three = all_done(two, made).0;
    let four = all_done(three, linked).0;
    if keeps {
        lemma_one_done(disk, LoadStepModel::Rename(place, backup));
        assert(one == renamed(disk, place, backup));
    } else {
        assert(one == disk);
    }
    lemma_one_done(one, LoadStepModel::RemoveDir(place));
    assert(two == removed(one, place));
    if !facts.source {
        lemma_one_done(two, LoadStepModel::CreateDir(own));
        assert(three == two.insert(own, Place::Dir));
    } else {
        assert(three == two);
    }
    lemma_one_done(three, LoadStepModel::LinkDir(own, place));
    assert(four == three.insert(place, Place::Link(own)));
    assert(!two.dom().contains(place));
    assert(!is_at(own, backup) && !is_at(own, place));
    assert(one.dom().contains(own) == disk.dom().contains(own));
    assert(two.dom().contains(own) == disk.dom().contains(own));
    assert(all_done(disk, steps).1);
    assert forall|p: Seq<char>| #[trigger] is_under(p, place) implies !four.dom().contains(p) by {
        if p == own {
            assert(is_at(own, place));
        }
    }
    if keeps {
        assert forall|p: Seq<char>|
            #![trigger four.dom().contains(p)]
            is_at(p, backup) implies four.dom().contains(p) == disk.dom().contains(
            came_from(p, place, backup),
        ) && (four.dom().contains(p) ==> four[p] == disk[came_from(p, place, backup)]) by {
            if is_at(p, place) {
                lemma_nested(p, place, backup);
            }
            assert(p != own);
        }
    }
    if disk.dom().contains(backup) {
        assert forall|p: Seq<char>|
            #![trigger four.dom().contains(p)]
            is_at(p, backup) implies four.dom().contains(p) == disk.dom().contains(p) && (
        four.dom().contains(p) ==> four[p] == disk[p]) by {
            if is_at(p, place) {
                lemma_nested(p, place, backup);
            }
            assert(p != own);
        }
    }
}

/// No step of linking a folder removes or renames anything of the profile: all that is
/// removed or renamed lies in the game's folder for a user's files.
pub proof fn nothing_of_the_profile_is_removed(
    local: Seq<char>,
    profile: Seq<char>,
    name: Seq<char>,
    facts: FolderFacts,
    i: int,
)
    requires
        is_directory_path(local),
        is_directory_path(profile),
        apart(local, profile),
        is_plain_name(name),
        0 <= i < folder_steps(local, profile, name, facts).len(),
    ensures
        match folder_steps(local, profile, name, facts)[i] {
            LoadStepModel::RemoveDir(path) => is_under(path, local) && apart(path, profile),
            LoadStepModel::Rename(from, to) => {
                &&& is_under(from, local) && apart(from, profile)
                &&& is_under(to, local) && apart(to, profile)
            },
            LoadStepModel::CreateDir(path) => is_under(path, profile),
            LoadStepModel::LinkDir(from, to) => is_under(from, profile) && is_under(to, local),
            _ => false,
        },
{
    lemma_folder_paths(local, name);
    lemma_folder_paths(profile, name);
    let place = within(local, name);
    let own = within(profile, name);
    lemma_apart_below(local, profile, place, profile);
    lemma_apart_below(local, profile, kept_at(place), profile);
    assert(own.len() > profile.len());
    assert(place.len() > local.len());
}

proof fn lemma_other_folder_stays(
    disk: Disk,
    after: Disk,
    local: Seq<char>,
    profile: Seq<char>,
    name: Seq<char>,
    other: Seq<char>,
    facts: FolderFacts,
)
    requires
        is_directory_path(local),
        is_directory_path(profile),
        apart(local, profile),
        is_plain_name(name),
        is_plain_name(other),
        name != other,
        folder_is_linked(disk, after, local, profile, name),
    ensures
        folder_is_so(disk, local, profile, other, facts) ==> folder_is_so(
            after,
            local,
            profile,
            other,
            facts,
        ),
        apart(within(local, other), within(local, name)),
        apart(within(local, other), kept_at(within(local, name))),
        apart(kept_at(within(local, other)), within(local, name)),
        apart(kept_at(within(local, other)), kept_at(within(local, name))),
        within(profile, other) != within(profile, name),
{
    lemma_names_apart(local, name, other);
    lemma_folder_paths(local, name);
    lemma_folder_paths(local, other);
    lemma_folder_paths(profile, name);
    lemma_folder_paths(profile, other);
    let place = within(local, other);
    lemma_apart_below(local, profile, place, within(profile, name));
    lemma_apart_below(local, profile, kept_at(place), within(profile, name));
    lemma_apart_below(local, profile, within(local, name), within(profile, other));
    lemma_apart_below(local, profile, kept_at(within(local, name)), within(profile, other));
    assert(within(profile, other) != within(profile, name)) by {
        let n = profile.len() as int + 1;
        assert(within(profile, other).skip(n) =~= other);
        assert(within(profile, name).skip(n) =~= name);
    }
    assert(after.dom().contains(place) == disk.dom().contains(place));
    assert(after.dom().contains(kept_at(place)) == disk.dom().contains(kept_at(place)));
    assert(after.dom().contains(within(profile, other)) == disk.dom().contains(
        within(profile, other),
    ));
}

/// Two names in a directory, each perhaps with something behind a dot, lie apart.
proof fn lemma_names_apart(dir: Seq<char>, a: Seq<char>, b: Seq<char>)
    requires
        is_plain_name(a),
        is_plain_name(b),
        a != b,
    ensures
        apart(within(dir, b), within(dir, a)),
        apart(within(dir, b), kept_at(within(dir, a))),
        apart(kept_at(within(dir, b)), within(dir, a)),
        apart(kept_at(within(dir, b)), kept_at(within(dir, a))),
{
    lemma_not_at(dir, a, b);
    lemma_not_at(dir, b, a);
}

proof fn lemma_not_at(dir: Seq<char>, a: Seq<char>, b: Seq<char>)
    requires
        is_plain_name(a),
        is_plain_name(b),
        a != b,
    ensures
        !is_at(within(dir, b), within(dir, a)),
        !is_at(within(dir, b), kept_at(within(dir, a))),
        !is_at(kept_at(within(dir, b)), within(dir, a)),
        !is_at(kept_at(within(dir, b)), kept_at(within(dir, a))),
{
    let n = dir.len() as int + 1;
    let x = within(dir, a);
    let y = within(dir, b);
    let kx = kept_at(x);
    let ky = kept_at(y);
    assert(x.skip(n) =~= a);
    assert(y.skip(n) =~= b);
    assert forall|i: int| n <= i < y.len() implies y[i] != '/' && y[i] != '.' by {
        assert(y[i] == b[i - n]);
        assert(b.contains(b[i - n]));
    }
    assert forall|i: int| n <= i < ky.len() implies ky[i] != '/' by {
        if i < y.len() {
            assert(ky[i] == y[i]);
        }
    }
    assert forall|i: int| n <= i < x.len() implies x[i] != '/' && x[i] != '.' by {
        assert(x[i] == a[i - n]);
        assert(a.contains(a[i - n]));
    }
    assert(x.len() > n && y.len() > n);
    if y == kx {
        assert(kx[x.len() as int] == '.');
        assert(y[x.len() as int] == '.');
    }
    if ky == x {
        assert(ky[y.len() as int] == '.');
        assert(x[y.len() as int] == '.');
    }
    if ky == kx {
        assert(ky.take(ky.len() - 4) =~= y);
        assert(kx.take(kx.len() - 4) =~= x);
    }
}

/// Loading the folders of a profile leaves a link to each of them where the game looks for
/// it, and loses nothing of the profile's.
#[verifier::spinoff_prover]
#[verifier::rlimit(100)]
pub proof fn all_folders_are_linked(
    disk: Disk,
    local: Seq<char>,
    profile: Seq<char>,
    folders: LocalFolders,
)
    requires
        is_directory_path(local),
        is_directory_path(profile),
        apart(local, profile),
        folder_is_so(disk, local, profile, "CharacterPool"@, folders.character_pool),
        folder_is_so(disk, local, profile, "Config"@, folders.config),
        folder_is_so(disk, local, profile, "Photobooth"@, folders.photobooth),
        folder_is_so(disk, local, profile, "SaveData"@, folders.save_data),
    ensures
        ({
            let (after, well) = all_done(disk, local_steps(local, profile, folders));
            &&& well
            &&& is_link_to(after, within(local, "CharacterPool"@), within(profile, "CharacterPool"@))
            &&& is_link_to(after, within(local, "Config"@), within(profile, "Config"@))
            &&& is_link_to(after, within(local, "Photobooth"@), within(profile, "Photobooth"@))
            &&& is_link_to(after, within(local, "SaveData"@), within(profile, "SaveData"@))
            &&& forall|p: Seq<char>|
                is_at(p, profile) && #[trigger] disk.dom().contains(p) ==> after.dom().contains(p)
                    && after[p] == disk[p]
        }),
{
    lemma_folder_names();
    let (a, b, c, d) = ("CharacterPool"@, "Config"@, "Photobooth"@, "SaveData"@);
    let sa = folder_steps(local, profile, a, folders.character_pool);
    let sb = folder_steps(local, profile, b, folders.config);
    let sc = folder_steps(local, profile, c, folders.photobooth);
    let sd = folder_steps(local, profile, d, folders.save_data);
    assert(local_steps(local, profile, folders) == sa + sb + sc + sd);
    lemma_done_in_turn(disk, sa + sb + sc, sd);
    lemma_done_in_turn(disk, sa + sb, sc);
    lemma_done_in_turn(disk, sa, sb);
    let one = all_done(disk, sa).0;
    let two = all_done(one, sb).0;
    let three = all_done(two, sc).0;
    let four = all_done(three, sd).0;
    linking_a_folder_loses_nothing(disk, local, profile, a, folders.character_pool);
    lemma_other_folder_stays(disk, one, local, profile, a, b, folders.config);
    lemma_other_folder_stays(disk, one, local, profile, a, c, folders.photobooth);
    lemma_other_folder_stays(disk, one, local, profile, a, d, folders.save_data);
    linking_a_folder_loses_nothing(one, local, profile, b, folders.config);
    lemma_other_folder_stays(one, two, local, profile, b, c, folders.photobooth);
    lemma_other_folder_stays(one, two, local, profile, b, d, folders.save_data);
    linking_a_folder_loses_nothing(two, local, profile, c, folders.photobooth);
    lemma_other_folder_stays(two, three, local, profile, c, d, folders.save_data);
    linking_a_folder_loses_nothing(three, local, profile, d, folders.save_data);
    lemma_link_stays(one, two, local, profile, b, a);
    lemma_link_stays(two, three, local, profile, c, a);
    lemma_link_stays(three, four, local, profile, d, a);
    lemma_link_stays(two, three, local, profile, c, b);
    lemma_link_stays(three, four, local, profile, d, b);
    lemma_link_stays(three, four, local, profile, d, c);
    assert forall|p: Seq<char>| is_at(p, profile) && #[trigger] disk.dom().contains(
        p,
    ) implies four.dom().contains(p) && four[p] == disk[p] by {
        lemma_profile_stays(disk, one, local, profile, a, p);
        lemma_profile_stays(one, two, local, profile, b, p);
        lemma_profile_stays(two, three, local, profile, c, p);
        lemma_profile_stays(three, four, local, profile, d, p);
    }
}

/// Whether there is a link at a path to another one.
pub open spec fn is_link_to(disk: Disk, path: Seq<char>, target: Seq<char>) -> bool {
    disk.dom().contains(path) && disk[path] == Place::Link(target)
}

proof fn lemma_link_stays(
    disk: Disk,
    after: Disk,
    local: Seq<char>,
    profile: Seq<char>,
    name: Seq<char>,
    other: Seq<char>,
)
    requires
        is_directory_path(local),
        is_directory_path(profile),
        apart(local, profile),
        is_plain_name(name),
        is_plain_name(other),
        name != other,
        folder_is_linked(disk, after, local, profile, name),
        is_link_to(disk, within(local, other), within(profile, other)),
    ensures
        is_link_to(after, within(local, other), within(profile, other)),
{
    lemma_names_apart(local, name, other);
    lemma_folder_paths(local, other);
    lemma_folder_paths(profile, name);
    lemma_apart_below(local, profile, within(local, other), within(profile, name));
    assert(after.dom().contains(within(local, other)) == disk.dom().contains(within(local, other)));
}

proof fn lemma_profile_stays(
    disk: Disk,
    after: Disk,
    local: Seq<char>,
    profile: Seq<char>,
    name: Seq<char>,
    p: Seq<char>,
)
    requires
        is_directory_path(local),
        is_directory_path(profile),
        apart(local, profile),
        is_plain_name(name),
        folder_is_linked(disk, after, local, profile, name),
        is_at(p, profile),
        disk.dom().contains(p),
    ensures
        after.dom().contains(p),
        after[p] == disk[p],
{
    lemma_folder_paths(local, name);
    lemma_apart_below(local, profile, within(local, name), p);
    lemma_apart_below(local, profile, kept_at(within(local, name)), p);
    assert(after.dom().contains(p) || p == within(profile, name));
}

proof fn lemma_folder_names()
    ensures
        is_plain_name("CharacterPool"@),
        is_plain_name("Config"@),
        is_plain_name("Photobooth"@),
        is_plain_name("SaveData"@),
        "CharacterPool"@ != "Config"@,
        "CharacterPool"@ != "Photobooth"@,
        "CharacterPool"@ != "SaveData"@,
        "Config"@ != "Photobooth"@,
        "Config"@ != "SaveData"@,
        "Photobooth"@ != "SaveData"@,
{
    reveal_strlit("CharacterPool");
    reveal_strlit("Config");
    reveal_strlit("Photobooth");
    reveal_strlit("SaveData");
    assert("CharacterPool"@.len() == 13);
    assert("Config"@.len() == 6);
    assert("Photobooth"@.len() == 10);
    assert("SaveData"@.len() == 8);
}

/// Whether what was found of the game's directory is what is on the disk.
pub open spec fn game_is_so(disk: Disk, game: Seq<char>, facts: GameFacts) -> bool {
    let mods = within(game, "Mods"@);
    let config = within(game, "Config"@);
    let options = within(config, "DefaultModOptions.ini"@);
    &&& facts.mods ==> disk.dom().contains(mods)
    &&& disk.dom().contains(mods) && !facts.mods ==> facts.mods_is_link
    &&& forall|p: Seq<char>| #[trigger]
        is_under(p, mods) && disk.dom().contains(p) ==> disk.dom().contains(mods)
    &&& facts.mods_backup == disk.dom().contains(kept_at(mods))
    &&& facts.config == disk.dom().contains(config)
    &&& facts.options == disk.dom().contains(options)
    &&& facts.options_backup == disk.dom().contains(kept_at(options))
}

/// Linking the active mods into the game can always be done. It leaves a link to them where
/// the game looks for mods, and the list of them where it looks for that. The mods and the
/// list that were there before are kept under other names, unless some are kept already, and
/// nothing outside is touched.
#[verifier::spinoff_prover]
#[verifier::rlimit(100)]
pub proof fn linking_mods_loses_nothing(
    disk: Disk,
    active: Seq<char>,
    destination: Seq<char>,
    facts: GameFacts,
)
    requires
        is_directory_path(destination),
        game_is_so(disk, within(destination, "XComGame"@), facts),
    ensures
        ({
            let game = within(destination, "XComGame"@);
            let mods = within(game, "Mods"@);
            let config = within(game, "Config"@);
            let options = within(config, "DefaultModOptions.ini"@);
            let (after, well) = all_done(disk, environment_steps(active, destination, facts));
            &&& well
            &&& is_link_to(after, mods, active)
            &&& forall|p: Seq<char>| #[trigger] is_under(p, mods) ==> !after.dom().contains(p)
            &&& after.dom().contains(options) && after[options] is ModList
            &&& after.dom().contains(config)
            &&& disk.dom().contains(options) && !disk.dom().contains(kept_at(options))
                ==> after.dom().contains(kept_at(options)) && after[kept_at(options)]
                == disk[options]
            &&& disk.dom().contains(kept_at(options)) ==> after.dom().contains(kept_at(options))
                && after[kept_at(options)] == disk[kept_at(options)]
            &&& facts.mods && !disk.dom().contains(kept_at(mods)) ==> forall|p: Seq<char>|
                #![trigger after.dom().contains(p)]
                is_at(p, kept_at(mods)) ==> after.dom().contains(p) == disk.dom().contains(
                    came_from(p, mods, kept_at(mods)),
                )
            &&& disk.dom().contains(kept_at(mods)) ==> after.dom().contains(kept_at(mods))
                && after[kept_at(mods)] == disk[kept_at(mods)]
            &&& forall|p: Seq<char>|
                #![trigger after.dom().contains(p)]
                !is_at(p, mods) && !is_at(p, kept_at(mods)) && p != config && p != options && p
                    != kept_at(options) ==> after.dom().contains(p) == disk.dom().contains(p) && (
                after.dom().contains(p) ==> after[p] == disk[p])
        }),
{
    reveal_strlit("XComGame");
    reveal_strlit("Mods");
    reveal_strlit("Config");
    reveal_strlit("DefaultModOptions.ini");
    reveal_strlit(".bak");
    let game = within(destination, "XComGame"@);
    let mods = within(game, "Mods"@);
    let config = within(game, "Config"@);
    let options = within(config, "DefaultModOptions.ini"@);
    assert(joined(destination, "XComGame"@) =~= game);
    assert(game.last() == "XComGame"@[7]);
    assert(joined(game, "Mods"@) =~= mods);
    assert(joined(game, "Config"@) =~= config);
    assert(config.last() == "Config"@[5]);
    assert(joined(config, "DefaultModOptions.ini"@) =~= options);
    assert(mods + ".bak"@ =~= kept_at(mods));
    assert(options + ".bak"@ =~= kept_at(options));
    let n = game.len() as int;
    assert(mods[n + 1] == 'M' && config[n + 1] == 'C' && options[n + 1] == 'C');
    assert(kept_at(options)[n + 1] == 'C');
    lemma_branches_apart(game, mods, config);
    lemma_branches_apart(game, mods, options);
    lemma_branches_apart(game, mods, kept_at(options));
    lemma_branches_apart(game, kept_at(mods), config);
    lemma_branches_apart(game, kept_at(mods), options);
    lemma_branches_apart(game, kept_at(mods), kept_at(options));
    assert(kept_at(mods)[mods.len() as int] == '.');
    assert(apart(mods, kept_at(mods)));
    assert(config.len() < options.len() && options.len() < kept_at(options).len());
    let keeps = facts.mods && !facts.mods_backup;
    let kept = if keeps {
        seq![LoadStepModel::Rename(mods, kept_at(mods))]
    } else {
        Seq::empty()
    };
    let cleared = if facts.mods || facts.mods_is_link {
        seq![LoadStepModel::RemoveDir(mods)]
    } else {
        Seq::empty()
    };
    let made = if facts.config {
        Seq::empty()
    } else {
        seq![LoadStepModel::CreateDir(config)]
    };
    let saved = if facts.options && !facts.options_backup {
        seq![LoadStepModel::Copy(options, kept_at(options))]
    } else {
        Seq::empty()
    };
    let last = seq![
        LoadStepModel::WriteModList(options),
        LoadStepModel::LinkDir(active, mods),
    ];
    let written = seq![LoadStepModel::WriteModList(options)];
    let linked = seq![LoadStepModel::LinkDir(active, mods)];
    assert(last =~= written + linked);
    let steps = environment_steps(active, destination, facts);
    assert(steps =~= kept + cleared + made + saved + last);
    lemma_done_in_turn(disk, kept + cleared + made + saved, last);
    lemma_done_in_turn(disk, kept + cleared + made, saved);
    lemma_done_in_turn(disk, kept + cleared, made);
    lemma_done_in_turn(disk, kept, cleared);
    let one = all_done(disk, kept).0;
    let two = all_done(one, cleared).0;
    let three = all_done(two, made).0;
    let four = all_done(three, saved).0;
    lemma_done_in_turn(four, written, linked);
    let five = all_done(four, written).0;
    let six = all_done(five, linked).0;
    lemma_one_done(disk, LoadStepModel::Rename(mods, kept_at(mods)));
    lemma_one_done(one, LoadStepModel::RemoveDir(mods));
    lemma_one_done(two, LoadStepModel::CreateDir(config));
    lemma_one_done(three, LoadStepModel::Copy(options, kept_at(options)));
    lemma_one_done(four, LoadStepModel::WriteModList(options));
    lemma_one_done(five, LoadStepModel::LinkDir(active, mods));
    assert(one == if keeps {
        renamed(disk, mods, kept_at(mods))
    } else {
        disk
    });
    assert(!two.dom().contains(mods));
    assert forall|p: Seq<char>| #[trigger] is_under(p, mods) implies !six.dom().contains(p) by {
        assert(is_at(p, mods));
        assert(p != config && p != options && p != kept_at(options));
        if !(facts.mods || facts.mods_is_link) {
            assert(!disk.dom().contains(mods));
        }
    }
    assert forall|p: Seq<char>|
        #![trigger six.dom().contains(p)]
        is_at(p, kept_at(mods)) && keeps implies six.dom().contains(p) == disk.dom().contains(
        came_from(p, mods, kept_at(mods)),
    ) by {
        if is_at(p, mods) {
            lemma_nested(p, mods, kept_at(mods));
        }
    }
}

/// What begins differently in a directory lies apart.
proof fn lemma_branches_apart(dir: Seq<char>, a: Seq<char>, b: Seq<char>)
    requires
        dir.len() + 1 < a.len(),
        dir.len() + 1 < b.len(),
        a[dir.len() as int + 1] != b[dir.len() as int + 1],
    ensures
        apart(a, b),
        forall|p: Seq<char>| #[trigger] is_at(p, a) ==> p != b,
        forall|p: Seq<char>| #[trigger] is_at(p, b) ==> p != a,
{
    let n = dir.len() as int + 1;
    if is_under(a, b) {
        assert(a.take(b.len() as int)[n] == a[n]);
    }
    if is_under(b, a) {
        assert(b.take(a.len() as int)[n] == b[n]);
    }
}

} // verus!
