//! What the editor promises of the files that are edited in it.
use vstd::prelude::*;

#[allow(unused_imports)]
use super::{
    config_name, created, editor_step, ini_files, listed_models, loaded, save_steps, DeleteAction,
    EditorMessage, EditorModel, EditorPage, ListedModel, StepModel,
};
#[allow(unused_imports)]
use crate::paths::{extension_is, extension_set, joined};
#[allow(unused_imports)]
use crate::text::{contains_seq, find_from, lemma_find_from, occurs_at, trimmed_end};

verus! {

/// The text of the profile's own file, if there is one that can be read.
pub open spec fn own_text(
    m: EditorModel,
    name: Seq<char>,
    files: Map<Seq<char>, Seq<char>>,
) -> Option<Seq<char>> {
    if m.saved.dom().contains(name) && files.dom().contains(m.saved[name]) {
        Some(files[m.saved[name]])
    } else {
        None
    }
}

/// The text of the file that came with the mod, if there is one that can be read.
pub open spec fn mod_text(
    m: EditorModel,
    name: Seq<char>,
    files: Map<Seq<char>, Seq<char>>,
) -> Option<Seq<char>> {
    if m.originals.dom().contains(name) && files.dom().contains(m.originals[name]) {
        Some(files[m.originals[name]])
    } else {
        None
    }
}

/// The text that the game gets: that of the profile's own file where there is one, else that
/// of the mod's.
pub open spec fn played_text(
    m: EditorModel,
    name: Seq<char>,
    files: Map<Seq<char>, Seq<char>>,
) -> Option<Seq<char>> {
    if own_text(m, name, files) is Some {
        own_text(m, name, files)
    } else {
        mod_text(m, name, files)
    }
}

/// Whether everything but what is edited, which file is open and which page is shown stays.
pub open spec fn keeps_files(a: EditorModel, b: EditorModel) -> bool {
    &&& b.new_config_name == a.new_config_name
    &&& b.current_root == a.current_root
    &&& b.originals == a.originals
    &&& b.customs == a.customs
    &&& b.saved == a.saved
}

/// Opening a file that is not being edited shows the text that the game gets, so that the
/// file counts as saved. Nothing else is touched, and opening a file that is being edited
/// keeps the text that it was given.
pub proof fn opened_files_show_what_is_played(
    a: EditorModel,
    b: EditorModel,
    name: String,
    names: Seq<Seq<char>>,
    files: Map<Seq<char>, Seq<char>>,
    steps: Seq<StepModel>,
)
    requires
        editor_step(a, b, EditorMessage::Select(name), names, files, steps),
    ensures
        steps.len() == 0,
        keeps_files(a, b),
        b.current_file == Some(name@),
        a.current_file != Some(name@) ==> b.edits.dom().contains(name@) && b.page
            == EditorPage::IniEditor,
        a.edits.dom().contains(name@) ==> b.edits == a.edits,
        !a.edits.dom().contains(name@) && a.current_file != Some(name@) ==> {
            &&& b.edits[name@] == match played_text(a, name@, files) {
                Some(text) => text,
                None => Seq::empty(),
            }
            &&& played_text(a, name@, files) is Some ==> b.is_saved(name@, files)
        },
        forall|other: Seq<char>|
            other != name@ ==> (#[trigger] b.edits.dom().contains(other)
                == a.edits.dom().contains(other)) && (a.edits.dom().contains(other)
                ==> b.edits[other] == a.edits[other]),
{
}

/// An edited file counts as saved if and only if its text is the one that the game gets, but
/// for white space at the end.
pub proof fn edits_are_saved_when_they_are_played(
    m: EditorModel,
    name: Seq<char>,
    files: Map<Seq<char>, Seq<char>>,
)
    ensures
        m.in_use(name, files) == played_text(m, name, files),
        m.original(name, files) == mod_text(m, name, files),
        !m.edits.dom().contains(name) ==> m.is_saved(name, files),
        m.edits.dom().contains(name) ==> (m.is_saved(name, files) <==> played_text(
            m,
            name,
            files,
        ) is Some && trimmed_end(m.edits[name]) == trimmed_end(
            played_text(m, name, files)->Some_0,
        )),
{
}

/// Editing gives an open file the text that was entered, and touches nothing else.
pub proof fn edits_are_kept(
    a: EditorModel,
    b: EditorModel,
    name: String,
    text: String,
    names: Seq<Seq<char>>,
    files: Map<Seq<char>, Seq<char>>,
    steps: Seq<StepModel>,
)
    requires
        editor_step(a, b, EditorMessage::BufferEdit(name, text), names, files, steps),
    ensures
        steps.len() == 0,
        keeps_files(a, b) && b.current_file == a.current_file && b.page == a.page,
        a.edits.dom().contains(name@) ==> b.edits.dom().contains(name@) && b.edits[name@] == text@,
        !a.edits.dom().contains(name@) ==> b.edits == a.edits,
        forall|other: Seq<char>|
            other != name@ ==> (#[trigger] b.edits.dom().contains(other)
                == a.edits.dom().contains(other)) && (a.edits.dom().contains(other)
                ==> b.edits[other] == a.edits[other]),
{
}

/// The name of the file that a message is about, if it is about one.
pub open spec fn is_about(message: EditorMessage, name: Seq<char>) -> bool {
    match message {
        EditorMessage::Select(n) => n@ == name,
        EditorMessage::BufferEdit(n, _) => n@ == name,
        EditorMessage::Delete(n, _) => n@ == name,
        EditorMessage::Save(n) => n@ == name,
        _ => false,
    }
}

/// Nothing that is done to one file touches another: its edits, where it is saved and where
/// it came from stay. Only loading other files, and making a file of that name, do.
pub proof fn other_files_are_not_touched(
    a: EditorModel,
    b: EditorModel,
    message: EditorMessage,
    name: Seq<char>,
    names: Seq<Seq<char>>,
    files: Map<Seq<char>, Seq<char>>,
    steps: Seq<StepModel>,
)
    requires
        editor_step(a, b, message, names, files, steps),
        !(message is Load),
        !is_about(message, name),
        message is Create ==> config_name(a.new_config_name) != name,
    ensures
        b.edits.dom().contains(name) == a.edits.dom().contains(name),
        a.edits.dom().contains(name) ==> b.edits[name] == a.edits[name],
        b.saved.dom().contains(name) == a.saved.dom().contains(name),
        a.saved.dom().contains(name) ==> b.saved[name] == a.saved[name],
        b.customs.contains(name) == a.customs.contains(name),
        b.originals == a.originals,
        b.current_root == a.current_root,
{
}

/// A file that is reset gets the text that came with the mod, and loses the profile's own. A
/// file that the user made is gone once it is deleted. In both cases the profile's own file is
/// removed from the disk, where there is one, and from nowhere else.
pub proof fn deleted_files_are_gone(
    a: EditorModel,
    b: EditorModel,
    name: String,
    action: DeleteAction,
    names: Seq<Seq<char>>,
    files: Map<Seq<char>, Seq<char>>,
    steps: Seq<StepModel>,
)
    requires
        editor_step(a, b, EditorMessage::Delete(name, action), names, files, steps),
        a.current_root is Some,
    ensures
        !b.saved.dom().contains(name@),
        b.originals == a.originals,
        played_text(b, name@, files) == mod_text(a, name@, files),
        action == DeleteAction::Reset ==> {
            &&& b.edits.dom().contains(name@)
            &&& b.edits[name@] == match mod_text(a, name@, files) {
                Some(text) => text,
                None => Seq::empty(),
            }
            &&& mod_text(a, name@, files) is Some ==> b.is_saved(name@, files)
            &&& b.customs == a.customs && b.current_file == a.current_file
        },
        action == DeleteAction::Delete ==> {
            &&& !b.edits.dom().contains(name@)
            &&& !b.customs.contains(name@)
            &&& b.current_file != Some(name@)
            &&& a.current_file != Some(name@) ==> b.current_file == a.current_file
        },
        a.saved.dom().contains(name@) ==> steps.len() == 1 && steps[0] == StepModel::RemoveFile(
            a.saved[name@],
            extension_set(joined(a.current_root->Some_0, name@), "ini"@),
        ),
        !a.saved.dom().contains(name@) ==> steps.len() == 0,
{
}

/// Saving a file writes the text that it was given to the profile's own file, unless that is
/// the text that came with the mod: the profile's own file is removed then, so that the mod's
/// is played. A file that is not being edited is not written.
pub proof fn saved_files_are_written(
    a: EditorModel,
    b: EditorModel,
    name: String,
    names: Seq<Seq<char>>,
    files: Map<Seq<char>, Seq<char>>,
    steps: Seq<StepModel>,
)
    requires
        editor_step(a, b, EditorMessage::Save(name), names, files, steps),
    ensures
        b == a,
        steps.len() == (if a.current_root is Some && a.edits.dom().contains(name@) {
            1nat
        } else {
            0nat
        }),
        steps.len() == 1 ==> {
            let path = extension_set(joined(a.current_root->Some_0, name@), "ini"@);
            if mod_text(a, name@, files) == Some(a.edits[name@]) {
                steps[0] == StepModel::ClearFile(name@, path)
            } else {
                steps[0] == StepModel::WriteFile(name@, path, a.edits[name@])
            }
        },
{
}

/// Saving everything saves each file that is being edited as saving it alone does, and no
/// other.
pub proof fn everything_is_saved(
    m: EditorModel,
    names: Seq<Seq<char>>,
    files: Map<Seq<char>, Seq<char>>,
    step: StepModel,
)
    ensures
        save_steps(m, names, files).contains(step) <==> exists|i: int|
            0 <= i < names.len() && m.save_step(#[trigger] names[i], files) == Some(step),
        m.current_root is Some && (forall|i: int|
            0 <= i < names.len() ==> m.edits.dom().contains(#[trigger] names[i])) ==> save_steps(
            m,
            names,
            files,
        ).len() == names.len(),
    decreases names.len(),
{
    let all = save_steps(m, names, files);
    if names.len() > 0 {
        let fewer = names.drop_last();
        everything_is_saved(m, fewer, files, step);
        let front = save_steps(m, fewer, files);
        if m.current_root is Some && forall|i: int|
            0 <= i < names.len() ==> m.edits.dom().contains(#[trigger] names[i]) {
            assert forall|i: int| 0 <= i < fewer.len() implies m.edits.dom().contains(
                #[trigger] fewer[i],
            ) by {
                assert(fewer[i] == names[i]);
            }
            assert(m.edits.dom().contains(names[names.len() - 1]));
        }
        if front.contains(step) {
            let k = choose|k: int| 0 <= k < front.len() && front[k] == step;
            assert(all[k] == step);
            let i = choose|i: int|
                0 <= i < fewer.len() && m.save_step(#[trigger] fewer[i], files) == Some(step);
            assert(names[i] == fewer[i]);
        }
        if m.save_step(names.last(), files) == Some(step) {
            assert(all[front.len() as int] == step);
            assert(names[names.len() - 1] == names.last());
        }
        if all.contains(step) {
            let k = choose|k: int| 0 <= k < all.len() && all[k] == step;
            if k < front.len() {
                assert(front[k] == step);
            } else {
                assert(names[names.len() - 1] == names.last());
            }
        }
        if exists|i: int|
            0 <= i < names.len() && m.save_step(#[trigger] names[i], files) == Some(step) {
            let i = choose|i: int|
                0 <= i < names.len() && m.save_step(#[trigger] names[i], files) == Some(step);
            if i < fewer.len() {
                assert(fewer[i] == names[i]);
            }
        }
    }
}

/// A file that is made is empty and the user's, and its name leads nowhere else. Nothing is
/// made without a profile, under a name that leads elsewhere, or in place of a file that is
/// there.
pub proof fn made_files_are_new(m: EditorModel)
    ensures
        ({
            let name = config_name(m.new_config_name);
            let (after, steps) = created(m);
            let leads = name.contains('/') || name.contains('\\') || contains_seq(
                name,
                seq!['.', '.'],
            );
            let there = m.originals.dom().contains(name) || m.customs.contains(name);
            &&& after.originals == m.originals && after.current_root == m.current_root
            &&& m.current_root is None ==> after == m && steps.len() == 0
            &&& m.current_root is Some && leads ==> after == m && steps.len() == 1
                && steps[0] is ShowError
            &&& m.current_root is Some && !leads && there ==> {
                &&& after == (EditorModel { new_config_name: Seq::empty(), ..m })
                &&& steps.len() == 1 && steps[0] is ShowError
            }
            &&& m.current_root is Some && !leads && !there ==> {
                &&& steps.len() == 0
                &&& after.customs == m.customs.insert(name)
                &&& after.edits.dom().contains(name) && after.edits[name].len() == 0
                &&& after.saved.dom().contains(name)
                &&& after.new_config_name.len() == 0
                &&& forall|other: Seq<char>|
                    other != name ==> (#[trigger] after.edits.dom().contains(other)
                        == m.edits.dom().contains(other)) && (m.edits.dom().contains(other)
                        ==> after.edits[other] == m.edits[other])
            }
        }),
{
    let name = config_name(m.new_config_name);
    reveal_strlit("/");
    reveal_strlit("\\");
    reveal_strlit("..");
    assert("/"@ =~= seq!['/']);
    assert("\\"@ =~= seq!['\\']);
    assert(".."@ =~= seq!['.', '.']);
    lemma_holds_char(name, '/');
    lemma_holds_char(name, '\\');
    lemma_find_from(name, ".."@, 0);
    if let Some(i) = find_from(name, ".."@, 0) {
        assert(occurs_at(name, ".."@, i));
    }
}

proof fn lemma_holds_char(s: Seq<char>, c: char)
    ensures
        find_from(s, seq![c], 0) is Some <==> s.contains(c),
{
    lemma_find_from(s, seq![c], 0);
    if let Some(i) = find_from(s, seq![c], 0) {
        assert(s.subrange(i, i + 1)[0] == s[i]);
    }
    if s.contains(c) {
        let i = choose|i: int| 0 <= i < s.len() && s[i] == c;
        assert(s.subrange(i, i + 1) =~= seq![c]);
        assert(occurs_at(s, seq![c], i));
    }
}

/// The configuration files of a directory are those with the extension, each by its name
/// without it, and nothing else is taken for one.
pub proof fn configuration_files_are_found(files: Seq<ListedModel>, name: Seq<char>)
    ensures
        ini_files(files).dom().contains(name) <==> exists|i: int|
            0 <= i < files.len() && extension_is((#[trigger] files[i]).path, "ini"@) && config_name(
                files[i].name,
            ) == name,
        ini_files(files).dom().contains(name) ==> exists|i: int|
            0 <= i < files.len() && extension_is((#[trigger] files[i]).path, "ini"@) && config_name(
                files[i].name,
            ) == name && ini_files(files)[name] == files[i].path,
    decreases files.len(),
{
    if files.len() > 0 {
        let fewer = files.drop_last();
        configuration_files_are_found(fewer, name);
        let last = files.last();
        assert(files[files.len() - 1] == last);
        if exists|i: int|
            0 <= i < fewer.len() && extension_is((#[trigger] fewer[i]).path, "ini"@) && config_name(
                fewer[i].name,
            ) == name {
            let i = choose|i: int|
                0 <= i < fewer.len() && extension_is((#[trigger] fewer[i]).path, "ini"@)
                    && config_name(fewer[i].name) == name && ini_files(fewer)[name]
                    == fewer[i].path;
            assert(files[i] == fewer[i]);
        }
        if exists|i: int|
            0 <= i < files.len() && extension_is((#[trigger] files[i]).path, "ini"@) && config_name(
                files[i].name,
            ) == name {
            let i = choose|i: int|
                0 <= i < files.len() && extension_is((#[trigger] files[i]).path, "ini"@)
                    && config_name(files[i].name) == name;
            if i < fewer.len() {
                assert(fewer[i] == files[i]);
            }
        }
    }
}

/// Loading the files of a mod and a profile leaves nothing of those before: nothing is being
/// edited and no file is open. The user's files are those of the profile that did not come
/// with the mod, and the profile's files can be saved if and only if both were listed.
pub proof fn loading_begins_anew(
    a: EditorModel,
    b: EditorModel,
    originals: super::Listing,
    saved: super::Listing,
    names: Seq<Seq<char>>,
    files: Map<Seq<char>, Seq<char>>,
    steps: Seq<StepModel>,
    name: Seq<char>,
)
    requires
        editor_step(a, b, EditorMessage::Load(originals, saved), names, files, steps),
    ensures
        b.edits.dom() =~= Set::<Seq<char>>::empty(),
        b.current_file is None,
        b.page == EditorPage::IniEditor,
        b.new_config_name == a.new_config_name,
        b.current_root is Some <==> originals.failure is None && saved.failure is None,
        b.current_root is Some ==> b.current_root == Some(saved.path@),
        steps.len() == 0 <==> originals.failure is None && saved.failure is None,
        forall|i: int| 0 <= i < steps.len() ==> (#[trigger] steps[i]) is ShowError,
        b.originals == ini_files(listed_models(originals.files@)),
        originals.failure is None ==> b.saved == ini_files(listed_models(saved.files@)),
        originals.failure is None ==> (b.customs.contains(name) <==> b.saved.dom().contains(name)
            && !b.originals.dom().contains(name)),
{
}

} // verus!
