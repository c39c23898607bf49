use lxcomm::mod_edit::{
    DeleteAction, Editor, EditorMessage, EditorPage, EditorStep, ListedFile, Listing, PaneBody,
    RowStyle,
};
use lxcomm::table::Table;

fn listed(path: &str, names: &[(&str, &str)]) -> Listing {
    let files = names
        .iter()
        .map(|(name, path)| ListedFile { name: name.to_string(), path: path.to_string() })
        .collect();
    Listing { path: path.to_string(), files, failure: None }
}

fn texts(all: &[(&str, &str)]) -> Table<String, String> {
    let mut table = Table::new();
    for (path, text) in all {
        table.insert(path.to_string(), text.to_string());
    }
    table
}

fn files() -> Table<String, String> {
    texts(&[("/o/XComGame.ini", "[A]\nx=1\n"), ("/own/Mine.ini", "mine")])
}

fn loaded() -> Editor {
    let mut editor = Editor::default();
    let steps = editor.update(
        EditorMessage::Load(
            listed("/o", &[("XComGame.ini", "/o/XComGame.ini"), ("notes.txt", "/o/notes.txt")]),
            listed("/own", &[("Mine.ini", "/own/Mine.ini")]),
        ),
        &files(),
    );
    assert!(steps.is_empty());
    editor
}

#[test]
fn files_are_loaded() {
    let editor = loaded();
    let buttons: Vec<String> =
        editor.file_buttons(&files()).into_iter().map(|b| b.label).collect();
    assert_eq!(buttons, vec!["Mine.ini", "XComGame.ini"]);
    assert_eq!(editor.get_delete_action(&"Mine".to_string()), DeleteAction::Delete);
    assert_eq!(editor.get_delete_action(&"XComGame".to_string()), DeleteAction::Reset);
    assert_eq!(
        editor.get_original(&"XComGame".to_string(), &files()),
        Some("[A]\nx=1\n".to_string())
    );
    assert_eq!(editor.get_original(&"Mine".to_string(), &files()), None);
    let mut other = loaded();
    let mut broken = listed("/o", &[("XComGame.ini", "/o/XComGame.ini")]);
    broken.failure = Some("no".into());
    let own = listed("/own", &[("Mine.ini", "/own/Mine.ini")]);
    let steps = other.update(EditorMessage::Load(broken, own), &files());
    match &steps[..] {
        [EditorStep::ShowError(title, body)] => {
            assert_eq!(title, "Error");
            assert_eq!(
                body,
                "Something went wrong when trying to load the mod's original config files.\nLXCOMM might be lacking proper file permissions for some reason.\nPath: /o\nOriginal error: no\n"
            );
        }
        _ => panic!("the error was not told of"),
    }
    let buttons: Vec<String> =
        other.file_buttons(&files()).into_iter().map(|b| b.label).collect();
    assert_eq!(buttons, vec!["XComGame.ini"]);
    assert!(other.current_root.is_none());
    let mut broken = listed("/own", &[("Mine.ini", "/own/Mine.ini")]);
    broken.failure = Some("no".into());
    let originals = listed("/o", &[("XComGame.ini", "/o/XComGame.ini")]);
    let steps = other.update(EditorMessage::Load(originals, broken), &files());
    assert!(matches!(
        &steps[..],
        [EditorStep::ShowError(_, body)]
            if body.starts_with("Something went wrong when trying to load profile information.")
    ));
    let buttons: Vec<String> =
        other.file_buttons(&files()).into_iter().map(|b| b.label).collect();
    assert_eq!(buttons, vec!["Mine.ini", "XComGame.ini"]);
    assert!(other.current_root.is_none());
}

#[test]
fn edits_are_kept_until_saved() {
    let files = files();
    let name = "XComGame".to_string();
    let mut editor = loaded();
    editor.update(EditorMessage::Select(name.clone()), &files);
    assert!(editor.is_saved(&name, &files));
    assert!(!editor.can_delete(&name, &files));
    editor.update(EditorMessage::BufferEdit(name.clone(), "[A]\nx=2\n".into()), &files);
    assert!(!editor.is_saved(&name, &files));
    assert!(editor.has_unsaved(&files));
    assert!(editor.can_delete(&name, &files));
    let steps = editor.update(EditorMessage::Save(name.clone()), &files);
    match &steps[..] {
        [EditorStep::WriteFile(n, path, text)] => {
            assert_eq!(n, "XComGame");
            assert_eq!(path, "/own/XComGame.ini");
            assert_eq!(text, "[A]\nx=2\n");
            let (n, path, text) = (n.clone(), path.clone(), text.clone());
            editor.saved(n, path.clone());
            let mut written = files;
            written.insert(path, text);
            assert!(editor.is_saved(&name, &written));
            assert!(!editor.has_unsaved(&written));
            let steps = editor.update(
                EditorMessage::Delete(name.clone(), DeleteAction::Reset),
                &written,
            );
            assert!(matches!(&steps[..], [EditorStep::RemoveFile(_, p)] if p == "/own/XComGame.ini"));
            assert!(editor.is_saved(&name, &written));
        }
        _ => panic!("the file should be written"),
    }
}

#[test]
fn original_text_is_not_written_again() {
    let mut editor = loaded();
    editor.update(EditorMessage::Select("XComGame".into()), &files());
    let steps = editor.update(EditorMessage::SaveAll, &files());
    assert!(matches!(&steps[..], [EditorStep::ClearFile(n, _)] if n == "XComGame"));
}

#[test]
fn changes_are_shown_line_by_line() {
    let files = files();
    let mut editor = loaded();
    assert!(editor.pane(&files).is_none());
    editor.update(EditorMessage::Select("XComGame".into()), &files);
    editor.update(EditorMessage::BufferEdit("XComGame".into(), "[A]\nx=2\n".into()), &files);
    let pane = editor.pane(&files).unwrap();
    assert!(matches!(pane.body, PaneBody::Text(text) if text == "[A]\nx=2\n"));
    editor.update(EditorMessage::SetPage(EditorPage::Diff), &files);
    match editor.pane(&files).unwrap().body {
        PaneBody::Diff(rows) => {
            let styles: Vec<RowStyle> = rows.iter().map(|row| row.0).collect();
            assert_eq!(styles, vec![RowStyle::Bordered, RowStyle::Danger, RowStyle::Success]);
            assert_eq!(rows[1].1, "x=1\n");
            assert_eq!(rows[2].1, "x=2\n");
        }
        _ => panic!("a difference should be shown"),
    }
    editor.update(EditorMessage::Select("Mine".into()), &files);
    editor.update(EditorMessage::SetPage(EditorPage::Diff), &files);
    assert!(matches!(editor.pane(&files).unwrap().body, PaneBody::NoOriginal));
}

#[test]
fn custom_files_can_be_made_and_deleted() {
    let files = files();
    let mut editor = loaded();
    editor.update(EditorMessage::NewConfigEdit("Extra".into()), &files);
    editor.update(EditorMessage::Create, &files);
    assert_eq!(editor.get_delete_action(&"Extra".to_string()), DeleteAction::Delete);
    editor.update(EditorMessage::NewConfigEdit("XComGame".into()), &files);
    let steps = editor.update(EditorMessage::Create, &files);
    assert!(matches!(&steps[..], [EditorStep::ShowError(_, _)]));
    editor.update(EditorMessage::Delete("Extra".into(), DeleteAction::Delete), &files);
    assert_eq!(editor.get_delete_action(&"Extra".to_string()), DeleteAction::Reset);
}
