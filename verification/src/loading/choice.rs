//! What a mod is made of when it is played.
use vstd::prelude::*;

#[allow(unused_imports)]
use super::plan::{config_steps, entry_steps, is_replaced, placed, ModEntryModel, PlaceModel};
#[allow(unused_imports)]
use super::{
    custom_links, enabled_keys, is_custom, is_source, list_header, mod_lines, original_links,
    source_of, ConfigModel, LinkModel,
};
#[allow(unused_imports)]
use crate::library::LibraryItemSettings;
#[allow(unused_imports)]
use crate::paths::{extension_is, joined, same_ignoring_case};
#[allow(unused_imports)]
use crate::xcom_mod::{ModIdModel, ModMetadata};

verus! {

/// Whether a file is a configuration file with these contents' path and name.
pub open spec fn is_config(entry: ConfigModel, from: Seq<char>, name: Seq<char>) -> bool {
    extension_is(entry.path, "ini"@) && entry.canonical == from && entry.canonical_name == name
}

proof fn lemma_contains_pushed<T>(front: Seq<T>, last: T, x: T)
    ensures
        front.push(last).contains(x) <==> front.contains(x) || x == last,
{
    let all = front.push(last);
    if front.contains(x) {
        let k = choose|k: int| 0 <= k < front.len() && front[k] == x;
        assert(all[k] == x);
    }
    if x == last {
        assert(all[front.len() as int] == x);
    }
    if all.contains(x) {
        let k = choose|k: int| 0 <= k < all.len() && all[k] == x;
        if k < front.len() {
            assert(front[k] == x);
        }
    }
}

/// The links to the files that the user made are one for each of them, and no other.
pub proof fn all_custom_files_are_linked(entries: Seq<ConfigModel>, link: LinkModel)
    ensures
        custom_links(entries).contains(link) <==> (link matches LinkModel::File(from, name)
            && exists|i: int|
            0 <= i < entries.len() && is_config(#[trigger] entries[i], from, name)),
    decreases entries.len(),
{
    if entries.len() > 0 {
        let fewer = entries.drop_last();
        let last = entries.last();
        all_custom_files_are_linked(fewer, link);
        assert(entries[entries.len() - 1] == last);
        lemma_contains_pushed(
            custom_links(fewer),
            LinkModel::File(last.canonical, last.canonical_name),
            link,
        );
        if let LinkModel::File(from, name) = link {
            if exists|i: int| 0 <= i < fewer.len() && is_config(#[trigger] fewer[i], from, name) {
                let i = choose|i: int|
                    0 <= i < fewer.len() && is_config(#[trigger] fewer[i], from, name);
                assert(entries[i] == fewer[i]);
            }
            if exists|i: int| 0 <= i < entries.len() && is_config(
                #[trigger] entries[i],
                from,
                name,
            ) {
                let i = choose|i: int|
                    0 <= i < entries.len() && is_config(#[trigger] entries[i], from, name);
                if i < fewer.len() {
                    assert(entries[i] == fewer[i]);
                }
            }
        }
    }
}

/// Whether the user made a configuration file of a name.
pub open spec fn is_users(custom: Seq<ConfigModel>, name: Seq<char>) -> bool {
    exists|i: int|
        0 <= i < custom.len() && extension_is((#[trigger] custom[i]).path, "ini"@)
            && custom[i].canonical_name == name
}

/// What came with a mod is linked: each configuration file that the user did not replace, each
/// directory that is no such file, and nothing else.
pub proof fn all_other_files_are_linked(
    custom: Seq<ConfigModel>,
    entries: Seq<ConfigModel>,
    link: LinkModel,
)
    ensures
        original_links(custom, entries).contains(link) <==> match link {
            LinkModel::File(from, name) => !is_users(custom, name) && exists|i: int|
                0 <= i < entries.len() && is_config(#[trigger] entries[i], from, name),
            LinkModel::Directory(from, name) => exists|i: int|
                0 <= i < entries.len() && (#[trigger] entries[i]).is_dir && !extension_is(
                    entries[i].path,
                    "ini"@,
                ) && entries[i].canonical == from && entries[i].name == name,
        },
    decreases entries.len(),
{
    if entries.len() > 0 {
        let fewer = entries.drop_last();
        let last = entries.last();
        all_other_files_are_linked(custom, fewer, link);
        assert(entries[entries.len() - 1] == last);
        let front = original_links(custom, fewer);
        lemma_contains_pushed(front, LinkModel::File(last.canonical, last.canonical_name), link);
        lemma_contains_pushed(front, LinkModel::Directory(last.canonical, last.name), link);
        match link {
            LinkModel::File(from, name) => {
                if exists|i: int| 0 <= i < fewer.len() && is_config(
                    #[trigger] fewer[i],
                    from,
                    name,
                ) {
                    let i = choose|i: int|
                        0 <= i < fewer.len() && is_config(#[trigger] fewer[i], from, name);
                    assert(entries[i] == fewer[i]);
                }
                if exists|i: int| 0 <= i < entries.len() && is_config(
                    #[trigger] entries[i],
                    from,
                    name,
                ) {
                    let i = choose|i: int|
                        0 <= i < entries.len() && is_config(#[trigger] entries[i], from, name);
                    if i < fewer.len() {
                        assert(entries[i] == fewer[i]);
                    }
                }
            },
            LinkModel::Directory(from, name) => {
                if exists|i: int|
                    0 <= i < fewer.len() && (#[trigger] fewer[i]).is_dir && !extension_is(
                        fewer[i].path,
                        "ini"@,
                    ) && fewer[i].canonical == from && fewer[i].name == name {
                    let i = choose|i: int|
                        0 <= i < fewer.len() && (#[trigger] fewer[i]).is_dir && !extension_is(
                            fewer[i].path,
                            "ini"@,
                        ) && fewer[i].canonical == from && fewer[i].name == name;
                    assert(entries[i] == fewer[i]);
                }
                if exists|i: int|
                    0 <= i < entries.len() && (#[trigger] entries[i]).is_dir && !extension_is(
                        entries[i].path,
                        "ini"@,
                    ) && entries[i].canonical == from && entries[i].name == name {
                    let i = choose|i: int|
                        0 <= i < entries.len() && (#[trigger] entries[i]).is_dir && !extension_is(
                            entries[i].path,
                            "ini"@,
                        ) && entries[i].canonical == from && entries[i].name == name;
                    if i < fewer.len() {
                        assert(entries[i] == fewer[i]);
                    }
                }
            },
        }
    }
}

/// The configuration of a mod that is played: under each name lies the file that the user made,
/// where there is one, and else the one that came with the mod. All links lie in the directory
/// that is made first.
pub proof fn the_users_configuration_is_played(
    dir: Seq<char>,
    custom: Seq<ConfigModel>,
    original: Seq<ConfigModel>,
    from: Seq<char>,
    name: Seq<char>,
)
    ensures
        config_steps(dir, custom, original).len() > 0,
        config_steps(dir, custom, original)[0] == PlaceModel::CreateDir(dir),
        (exists|i: int| 0 <= i < custom.len() && is_config(#[trigger] custom[i], from, name))
            ==> config_steps(dir, custom, original).contains(
            PlaceModel::LinkFile(from, joined(dir, name)),
        ),
        !is_users(custom, name) && (exists|i: int|
            0 <= i < original.len() && is_config(#[trigger] original[i], from, name))
            ==> config_steps(dir, custom, original).contains(
            PlaceModel::LinkFile(from, joined(dir, name)),
        ),
{
    let links = custom_links(custom) + original_links(custom, original);
    let link = LinkModel::File(from, name);
    all_custom_files_are_linked(custom, link);
    all_other_files_are_linked(custom, original, link);
    let steps = config_steps(dir, custom, original);
    let wanted = PlaceModel::LinkFile(from, joined(dir, name));
    if custom_links(custom).contains(link) {
        let k = choose|k: int| 0 <= k < custom_links(custom).len() && custom_links(custom)[k] == link;
        assert(links[k] == link);
        assert(steps[k + 1] == placed(dir, links[k]));
        assert(steps[k + 1] == wanted);
    }
    if original_links(custom, original).contains(link) {
        let all = original_links(custom, original);
        let n = custom_links(custom).len() as int;
        let k = choose|k: int| 0 <= k < all.len() && all[k] == link;
        assert(links[n + k] == link);
        assert(steps[n + k + 1] == placed(dir, links[n + k]));
        assert(steps[n + k + 1] == wanted);
    }
}

/// Whether a link leads from where an entry of a mod is taken.
pub open spec fn links_entry(
    step: PlaceModel,
    dir: Seq<char>,
    entry: ModEntryModel,
    config: Option<Seq<char>>,
) -> bool {
    let to = joined(dir, entry.name);
    if same_ignoring_case(entry.name, "config"@) && config is Some {
        step == PlaceModel::LinkDir(config->Some_0, to)
    } else if entry.is_dir {
        step == PlaceModel::LinkDir(entry.path, to)
    } else {
        step == PlaceModel::LinkFile(entry.path, to)
    }
}

/// A mod that is put among the active ones is whole: everything in its directory is linked under
/// its own name but for source files, and the active configuration, where there is one, stands in
/// for the mod's. Putting it there fails only for something that is neither a file nor a
/// directory.
pub proof fn active_mods_are_whole(
    dir: Seq<char>,
    entries: Seq<ModEntryModel>,
    config: Option<Seq<char>>,
    k: int,
)
    requires
        0 <= k < entries.len(),
    ensures
        entry_steps(dir, entries, config).1 && !is_source(entries[k].name) ==> exists|i: int|
            0 <= i < entry_steps(dir, entries, config).0.len() && links_entry(
                #[trigger] entry_steps(dir, entries, config).0[i],
                dir,
                entries[k],
                config,
            ),
        entry_steps(dir, entries, config).1 ==> is_source(entries[k].name) || entries[k].is_dir
            || entries[k].is_file || (same_ignoring_case(entries[k].name, "config"@)
            && config is Some),
    decreases entries.len(),
{
    let fewer = entries.drop_last();
    let (front, whole) = entry_steps(dir, fewer, config);
    let all = entry_steps(dir, entries, config).0;
    if entry_steps(dir, entries, config).1 {
        if k < fewer.len() {
            active_mods_are_whole(dir, fewer, config, k);
            assert(fewer[k] == entries[k]);
            if !is_source(entries[k].name) {
                let i = choose|i: int|
                    0 <= i < front.len() && links_entry(
                        #[trigger] front[i],
                        dir,
                        fewer[k],
                        config,
                    );
                assert(all[i] == front[i]);
            }
        } else if !is_source(entries[k].name) {
            assert(entries.last() == entries[k]);
            assert(links_entry(all[front.len() as int], dir, entries[k], config));
        }
    }
}

/// The mods of a profile whose configuration is active are those that are enabled.
pub proof fn active_mods_are_the_enabled_ones(
    rows: Seq<(ModIdModel, LibraryItemSettings)>,
    id: ModIdModel,
)
    ensures
        enabled_keys(rows).contains(id) <==> exists|i: int|
            0 <= i < rows.len() && (#[trigger] rows[i]).0 == id && rows[i].1.enabled,
    decreases rows.len(),
{
    if rows.len() > 0 {
        let fewer = rows.drop_last();
        active_mods_are_the_enabled_ones(fewer, id);
        assert(rows[rows.len() - 1] == rows.last());
        lemma_contains_pushed(enabled_keys(fewer), rows.last().0, id);
        if exists|i: int| 0 <= i < fewer.len() && (#[trigger] fewer[i]).0 == id
            && fewer[i].1.enabled {
            let i = choose|i: int|
                0 <= i < fewer.len() && (#[trigger] fewer[i]).0 == id && fewer[i].1.enabled;
            assert(rows[i] == fewer[i]);
        }
        if exists|i: int| 0 <= i < rows.len() && (#[trigger] rows[i]).0 == id
            && rows[i].1.enabled {
            let i = choose|i: int|
                0 <= i < rows.len() && (#[trigger] rows[i]).0 == id && rows[i].1.enabled;
            if i < fewer.len() {
                assert(rows[i] == fewer[i]);
            }
        }
    }
}

/// The list of active mods names each mod once, in order: the list of some mods and then others
/// is the two lists one after the other, and that of one mod is its line.
pub proof fn lists_name_every_mod(
    ids: Seq<ModIdModel>,
    more: Seq<ModIdModel>,
    metadata: Map<ModIdModel, ModMetadata>,
    id: ModIdModel,
)
    requires
        forall|i: int| 0 <= i < ids.len() ==> metadata.dom().contains(#[trigger] ids[i]),
        forall|i: int| 0 <= i < more.len() ==> metadata.dom().contains(#[trigger] more[i]),
        metadata.dom().contains(id),
    ensures
        mod_lines(ids + more, metadata).0 == mod_lines(ids, metadata).0 + mod_lines(
            more,
            metadata,
        ).0,
        mod_lines(seq![id], metadata).0 == "ActiveMods=\""@ + metadata[id].dlc_name@ + "\"\n"@,
        mod_lines(ids + more, metadata).1,
    decreases more.len(),
{
    let one = seq![id];
    assert(one.drop_last() =~= Seq::empty());
    assert(mod_lines(one.drop_last(), metadata) == (Seq::<char>::empty(), true));
    assert(one.last() == id);
    assert(mod_lines(one, metadata).0 =~= "ActiveMods=\""@ + metadata[id].dlc_name@ + "\"\n"@);
    super::list_is_complete_when_all_is_known(ids, metadata);
    super::list_is_complete_when_all_is_known(more, metadata);
    if more.len() == 0 {
        assert(ids + more =~= ids);
        assert(mod_lines(ids, metadata).0 + mod_lines(more, metadata).0 =~= mod_lines(
            ids,
            metadata,
        ).0);
    } else {
        let fewer = more.drop_last();
        assert forall|i: int| 0 <= i < fewer.len() implies metadata.dom().contains(
            #[trigger] fewer[i],
        ) by {
            assert(fewer[i] == more[i]);
        }
        lists_name_every_mod(ids, fewer, metadata, id);
        assert((ids + more).drop_last() =~= ids + fewer);
        assert((ids + more).last() == more.last());
        assert(metadata.dom().contains(more[more.len() - 1]));
        super::list_is_complete_when_all_is_known(fewer, metadata);
        assert(mod_lines(ids + more, metadata).0 =~= mod_lines(ids, metadata).0 + mod_lines(
            more,
            metadata,
        ).0);
    }
}

} // verus!
