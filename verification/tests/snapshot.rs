use std::collections::BTreeMap;

use lxcomm::snapshot::archive::{
    archive_write_dir, extend_existing, list_incremental_snapshots, load_basic_snapshot,
    load_incremental_snapshot, restore, times_until, ArchiveEntry, ArchiveError, ArchiveFacts,
    ArchiveStep, BasicSnapshotBuilder, EntryKind, IncrementalSnapshot, IncrementalSnapshotBuilder,
    LoadStep, SnapshotContainer, SnapshotMetadata, SnapshotType,
};
use lxcomm::snapshot::codec::{
    decode_ops, encode_op, encode_ops, read_until_match, DecodeError, MatchError,
};
use lxcomm::snapshot::diff::{edit_contents, generate_ops};
use lxcomm::snapshot::ops::SnapshotOp;
use lxcomm::snapshot::tree::{
    apply_ops, generate_ops_dir, tree_from_entries, FileTree, Node, TreeEntry, TreeError,
    WorkingCache,
};

#[test]
fn incr_ops_modify() {
    let file_name = "myfile.txt";
    let base = "my cool file (まじで)";
    let new = "get it twisted, this is my cooler file";
    let expected_changes = 3;

    let ops = generate_ops(
        file_name.to_owned(),
        Some(base.as_bytes()),
        Some(new.as_bytes()),
    );
    println!("{ops:#?}");
    assert_eq!(ops.len(), expected_changes);

    let mut encoded_ops = Vec::new();
    for op in ops.iter() {
        encode_op(op, &mut encoded_ops);
    }

    let decoded_ops = decode_ops(&encoded_ops).unwrap();

    assert_eq!(ops, decoded_ops);

    let mut editing = base.as_bytes().to_vec();
    let mut offset = 0u64;
    for op in decoded_ops {
        match op {
            SnapshotOp::Delete(name) => println!("Would delete {name}"),
            SnapshotOp::CreateDir(name) => println!("Would create directory {name}"),
            SnapshotOp::Create(name, contents) => {
                println!("Would create {name} with contents {contents:?}")
            }
            SnapshotOp::Modify(name, source_range, new_range, contents) => {
                assert_eq!(name, file_name);
                editing.splice(
                    source_range.start.wrapping_add(offset) as usize
                        ..source_range.end.wrapping_add(offset) as usize,
                    contents,
                );

                let source_len = source_range.end - source_range.start;
                let new_len = new_range.end - new_range.start;
                offset = offset.wrapping_add(new_len.wrapping_sub(source_len));
            }
        }
    }

    assert_eq!(std::str::from_utf8(&editing).unwrap(), new);
}

#[test]
fn test_read_until_match() {
    let my_str = "this cool thing is my cool str, get it twisted";
    let my_pattern = b"cool str";
    let mut my_buffer = Vec::new();
    let mut position = 0;

    let empty = read_until_match(&mut my_buffer, my_str.as_bytes(), &mut position, b"");
    assert_eq!(empty, Err(MatchError::EmptyPattern), "empty patterns should be invalid");

    read_until_match(&mut my_buffer, my_str.as_bytes(), &mut position, my_pattern).unwrap();
    assert_eq!(&my_buffer, b"this cool thing is my cool str");
    assert_eq!(&my_str.as_bytes()[position..], b", get it twisted");
}

#[test]
fn patterns_that_overlap_themselves_are_found() {
    let mut buffer = Vec::new();
    let mut position = 0;
    read_until_match(&mut buffer, b"aaaab!", &mut position, b"aaab").unwrap();
    assert_eq!(buffer, b"aaaab");
    assert_eq!(position, 5);
    let missing = read_until_match(&mut buffer, b"aaaab!", &mut position, b"?");
    assert_eq!(missing, Err(MatchError::NotFound));
    assert_eq!(position, 5);
    assert_eq!(buffer, b"!");
}

#[test]
fn operations_are_written_as_records() {
    let mut out = Vec::new();
    encode_op(&SnapshotOp::Delete("a/b".into()), &mut out);
    assert_eq!(out, b"I_LXD-I_LXPS__..a/b..I_LXPE__\n");
    out.clear();
    encode_op(&SnapshotOp::CreateDir("d".into()), &mut out);
    assert_eq!(out, b"I_LXC+I_LXPS__..d..I_LXPE__I_LXMD__\n");
    out.clear();
    encode_op(&SnapshotOp::Create("f".into(), b"hi\n".to_vec()), &mut out);
    assert_eq!(out, b"I_LXC+I_LXPS__..f..I_LXPE__I_LXBS__hi\nI_LXBE__\n");
    out.clear();
    encode_op(&SnapshotOp::Modify("f".into(), 1..2, 3..40, b"x".to_vec()), &mut out);
    assert_eq!(
        out,
        &b"I_LXM@I_LXPS__..f..I_LXPE__:00000000000000000001,00000000000000000002:00000000000000000003,00000000000000000040:I_LXBS__xI_LXBE__\n"[..]
    );
}

#[test]
fn written_operations_read_back() {
    let ops = vec![
        SnapshotOp::Delete("gone.txt".into()),
        SnapshotOp::CreateDir("deep/dir".into()),
        SnapshotOp::Create("deep/dir/f".into(), vec![0, 10, 255]),
        SnapshotOp::Modify("x".into(), 0..u64::MAX, 5..7, Vec::new()),
    ];
    let bytes = encode_ops(&ops);
    assert_eq!(decode_ops(&bytes).unwrap(), ops);
}

#[test]
fn bad_records_are_refused() {
    assert_eq!(decode_ops(b"I_LXZ!I_LXPS__..a..I_LXPE__\n"), Err(DecodeError::InvalidData));
    assert_eq!(decode_ops(b"I_LXD-I_LXPS__..a"), Err(DecodeError::UnexpectedEof));
    assert_eq!(
        decode_ops(b"I_LXD-I_LXPS__..a..I_LXPE__rest\n"),
        Err(DecodeError::InvalidData)
    );
    assert_eq!(decode_ops(b"").unwrap(), Vec::new());
    let gone = vec![SnapshotOp::Delete("a".into())];
    assert_eq!(decode_ops(b"I_LXD-I_LXPS__..a..I_LXPE__\n").unwrap(), gone);
    assert_eq!(decode_ops(b"I_LXD-I_LXPS__..a..I_LXPE__").unwrap(), gone);
    assert_eq!(decode_ops(b"I_LXD-I_LXPS__..a..I_LXPE__x"), Err(DecodeError::InvalidData));
    assert_eq!(
        decode_ops(b"I_LXD-I_LXPS__..a..I_LXPE__\nI_LX"),
        Err(DecodeError::UnexpectedEof)
    );
    assert_eq!(decode_ops(b"I_LXM@I_LXPS__..a..I_LXPE__;"), Err(DecodeError::InvalidData));
}

#[test]
fn one_file_has_one_kind_of_change() {
    assert_eq!(
        generate_ops("f".into(), Some(b"x"), None),
        vec![SnapshotOp::Delete("f".into())]
    );
    assert_eq!(
        generate_ops("f".into(), None, Some(b"x")),
        vec![SnapshotOp::Create("f".into(), b"x".to_vec())]
    );
    assert_eq!(generate_ops("f".into(), None, None), Vec::new());
    assert_eq!(generate_ops("f".into(), Some(b"x"), Some(b"x")), Vec::new());
}

#[test]
fn ranges_outside_a_file_are_refused() {
    let contents = b"abc".to_vec();
    assert_eq!(edit_contents(&contents, 0, &(2..9), &(2..3), &b"z".to_vec()), None);
    let (edited, offset) = edit_contents(&contents, 0, &(1..2), &(1..4), &b"XYZ".to_vec()).unwrap();
    assert_eq!(edited, b"aXYZc");
    assert_eq!(offset, 2);
}

fn entry(path: &str, node: Node) -> TreeEntry {
    TreeEntry { path: path.into(), node }
}

fn file(text: &str) -> Node {
    Node::File(text.as_bytes().to_vec())
}

fn base_state() -> Vec<TreeEntry> {
    vec![
        entry("dir/old.txt", file("old contents")),
        entry("dir/changed.txt", file("one two three")),
        entry("dir", Node::Dir),
        entry("swap", file("was a file")),
        entry("", Node::Dir),
    ]
}

fn next_state() -> Vec<TreeEntry> {
    vec![
        entry("dir/changed.txt", file("one 2 three four")),
        entry("dir", Node::Dir),
        entry("swap", Node::Dir),
        entry("new/inner", file("not there before")),
        entry("new", Node::Dir),
        entry("", Node::Dir),
    ]
}

fn last_state() -> Vec<TreeEntry> {
    vec![
        entry("dir/changed.txt", file("five")),
        entry("dir", Node::Dir),
        entry("swap", file("a file again")),
        entry("", Node::Dir),
    ]
}

fn assert_same_tree(tree: &FileTree, entries: Vec<TreeEntry>) {
    let expected = tree_from_entries(entries);
    assert_eq!(tree.len(), expected.len());
    for i in 0..tree.len() {
        assert_eq!(tree.key_at(i), expected.key_at(i));
        assert_eq!(tree.value_at(i), expected.value_at(i));
    }
}

#[test]
fn generated_changes_give_the_new_tree() {
    let ops = generate_ops_dir(&base_state(), &next_state()).unwrap();
    let (tree, cache) =
        apply_ops(tree_from_entries(base_state()), &ops, WorkingCache::new()).unwrap();
    assert_same_tree(&tree, next_state());
    let more = generate_ops_dir(&next_state(), &last_state()).unwrap();
    let (tree, _) = apply_ops(tree, &more, cache).unwrap();
    assert_same_tree(&tree, last_state());
}

#[test]
fn files_below_what_was_a_file_are_refused() {
    let filled = vec![
        entry("swap/inner", file("x")),
        entry("swap", Node::Dir),
        entry("", Node::Dir),
    ];
    assert_eq!(
        generate_ops_dir(&base_state(), &filled).err(),
        Some(TreeError::BlockedByFile)
    );
}

fn apply_error(ops: Vec<SnapshotOp>) -> TreeError {
    match apply_ops(tree_from_entries(base_state()), &ops, WorkingCache::new()) {
        Err(e) => e,
        Ok(_) => panic!("the changes should not apply"),
    }
}

#[test]
fn changes_that_do_not_fit_are_refused() {
    assert_eq!(apply_error(vec![SnapshotOp::Delete("nowhere".into())]), TreeError::NotFound);
    assert_eq!(
        apply_error(vec![SnapshotOp::Create("swap/x".into(), Vec::new())]),
        TreeError::BlockedByFile
    );
    assert_eq!(
        apply_error(vec![SnapshotOp::Modify("dir".into(), 0..0, 0..0, Vec::new())]),
        TreeError::IsADirectory
    );
    assert_eq!(
        apply_error(vec![SnapshotOp::Modify("swap".into(), 0..99, 0..0, Vec::new())]),
        TreeError::OutOfBounds
    );
    assert_eq!(
        apply_error(vec![
            SnapshotOp::Modify("swap".into(), 0..1, 0..0, Vec::new()),
            SnapshotOp::Delete("swap".into()),
        ]),
        TreeError::ContentsGone
    );
}

#[test]
fn every_state_comes_back_from_an_archive() {
    let first = extend_existing(&base_state(), &next_state(), 100).unwrap().unwrap();
    assert_eq!(first.0, "100");
    assert!(extend_existing(&next_state(), &next_state(), 150).unwrap().is_none());
    let second = extend_existing(&next_state(), &last_state(), -5).unwrap().unwrap();
    assert_eq!(second.0, "-5");

    let one = restore(tree_from_entries(base_state()), &vec![first.1.clone()]).unwrap();
    assert_same_tree(&one, next_state());
    let both = restore(tree_from_entries(base_state()), &vec![first.1, second.1]).unwrap();
    assert_same_tree(&both, last_state());
    let none = restore(tree_from_entries(base_state()), &Vec::new()).unwrap();
    assert_same_tree(&none, base_state());
}

#[test]
fn broken_archives_are_refused() {
    let unreadable = restore(tree_from_entries(base_state()), &vec![b"garbage".to_vec()]);
    assert!(matches!(
        unreadable,
        Err(ArchiveError::BadChanges(DecodeError::InvalidData))
    ));
    let record = encode_ops(&vec![SnapshotOp::Delete("nowhere".into())]);
    let unfit = restore(tree_from_entries(base_state()), &vec![record]);
    assert!(matches!(unfit, Err(ArchiveError::CannotApply(TreeError::NotFound))));
}

fn strings(names: &[&str]) -> Vec<String> {
    names.iter().map(|n| n.to_string()).collect()
}

#[test]
fn sets_of_changes_are_listed_in_order() {
    let names = strings(&["root", "root/a", "50", "-3", "7", "win\\x", "50"]);
    let times = list_incremental_snapshots(&names).unwrap();
    assert_eq!(times_until(&times, None), vec![-3, 7, 50]);
    assert_eq!(times_until(&times, Some(7)), vec![-3, 7]);
    assert_eq!(times_until(&times, Some(-4)), Vec::<i64>::new());
    let bad = list_incremental_snapshots(&strings(&["root", "soon"]));
    assert_eq!(bad.err(), Some(ArchiveError::BadTimestamp));
}

#[test]
fn snapshot_types_have_names() {
    for kind in [SnapshotType::Basic, SnapshotType::Incremental, SnapshotType::Invalid] {
        assert_eq!(SnapshotType::from_text(kind.text()), kind);
    }
    assert_eq!(SnapshotType::from_text("basic"), SnapshotType::Invalid);
    let silent = ArchiveFacts { metadata: None, names: Vec::new() };
    assert_eq!(silent.snapshot_type(), SnapshotType::Invalid);
    let told = ArchiveFacts {
        metadata: Some(SnapshotMetadata::new(
            SnapshotType::Incremental,
            "2024-01-01T00:00:00Z".into(),
            "0.4.0".into(),
        )),
        names: Vec::new(),
    };
    assert_eq!(told.snapshot_type(), SnapshotType::Incremental);
}

#[test]
fn snapshots_are_planned() {
    let basic = BasicSnapshotBuilder::new("/p/Mine".into(), "/s/Mine.zip".into())
        .ignore(strings(&["/p/Mine/Skip"]))
        .comment("why".into());
    assert!(basic.is_ignored("/p/Mine/Skip/"));
    assert!(!basic.is_ignored("/p/Mine"));
    let plan = basic.finalize("now".into(), "1".into()).unwrap();
    assert_eq!(plan.name, "Mine.zip");
    assert_eq!(plan.prefix, "");
    assert_eq!(plan.metadata.snapshot_type, SnapshotType::Basic);
    assert_eq!(plan.metadata.comment, Some("why".to_string()));
    assert_eq!(plan.metadata.original_date, "now");
    let nameless = BasicSnapshotBuilder::new("/p".into(), "/s/..".into());
    assert_eq!(nameless.finalize("n".into(), "1".into()).err(), Some(ArchiveError::NoName));

    let incremental = IncrementalSnapshotBuilder::new("/p/Mine".into(), "/s/Mine.zip".into());
    match incremental.finalize(false, "now".into(), "1".into()).unwrap() {
        IncrementalSnapshot::Create(new) => {
            assert_eq!(new.prefix, "root");
            assert_eq!(new.metadata.snapshot_type, SnapshotType::Incremental);
        }
        IncrementalSnapshot::Extend(_) => panic!("there is nothing to extend"),
    }
    assert!(matches!(
        incremental.finalize(true, "now".into(), "1".into()).unwrap(),
        IncrementalSnapshot::Extend(name) if name == "Mine.zip"
    ));
    let basic_metadata =
        SnapshotMetadata::new(SnapshotType::Basic, "d".into(), "1".into());
    assert_eq!(
        incremental.extend_metadata(basic_metadata).err(),
        Some(ArchiveError::NotIncremental)
    );
    let (working, name) = incremental.extend_directory("/cache");
    assert_eq!(name, "Mine");
    let hash = blake3::hash(b"LXCOMM/p/Mine").to_hex();
    assert_eq!(working, format!("/cache/LXCOMM_TEMP_EXTEND_INCR_{hash}"));
}

#[test]
fn archive_entries_are_planned() {
    let entries = vec![
        ArchiveEntry { path: Some("".into()), kind: EntryKind::Dir },
        ArchiveEntry { path: Some("a".into()), kind: EntryKind::Dir },
        ArchiveEntry { path: Some("a/b".into()), kind: EntryKind::File },
        ArchiveEntry { path: Some("l".into()), kind: EntryKind::Link },
        ArchiveEntry { path: Some("z".into()), kind: EntryKind::File },
    ];
    let (steps, error) = archive_write_dir("root", &entries);
    assert_eq!(error, Some(ArchiveError::Link));
    assert_eq!(steps.len(), 3);
    assert!(matches!(&steps[0], ArchiveStep::AddDirectory(d) if d == "root"));
    assert!(matches!(&steps[1], ArchiveStep::AddDirectory(d) if d == "root/a"));
    assert!(matches!(&steps[2], ArchiveStep::AddFile(f, 2) if f == "root/a/b"));
    let (steps, error) = archive_write_dir("", &entries[..3].iter().map(|e| ArchiveEntry {
        path: e.path.clone(),
        kind: e.kind,
    }).collect());
    assert_eq!(error, None);
    assert!(matches!(&steps[0], ArchiveStep::AddDirectory(d) if d == "a"));
    let unnamed = vec![ArchiveEntry { path: None, kind: EntryKind::File }];
    assert_eq!(archive_write_dir("", &unnamed).1, Some(ArchiveError::NotText));
}

#[test]
fn loads_are_planned() {
    let hash = blake3::hash(b"LXCOMM/profiles/New").to_hex();
    let working = format!("/cache/LXCOMM_TEMP_{hash}");
    let steps =
        load_basic_snapshot("New", "/profiles", "/cache", "profile.json", SnapshotType::Basic);
    assert_eq!(steps.len(), 6);
    assert!(matches!(&steps[0], LoadStep::Clear(p) if *p == working));
    assert!(matches!(&steps[1], LoadStep::Extract(p) if *p == working));
    assert!(matches!(&steps[2], LoadStep::Rename(p, n)
        if *p == format!("{working}/profile.json") && n == "New"));
    assert!(matches!(&steps[3], LoadStep::Clear(p) if p == "/profiles/New"));
    assert!(matches!(&steps[4], LoadStep::Move(f, t) if *f == working && t == "/profiles/New"));
    assert!(matches!(&steps[5], LoadStep::Discard(p) if *p == working));

    let refused = load_basic_snapshot(
        "New",
        "/profiles",
        "/cache",
        "profile.json",
        SnapshotType::Incremental,
    );
    assert!(matches!(&refused[..], [LoadStep::Fail(ArchiveError::NotBasic)]));

    let names = strings(&["root", "30", "20", "root/profile.json"]);
    let steps = load_incremental_snapshot(
        "New",
        "/profiles",
        "/cache",
        "profile.json",
        &names,
        Some(25),
    );
    assert_eq!(steps.len(), 7);
    assert!(matches!(&steps[2], LoadStep::Restore(w, r, times)
        if *w == working && *r == format!("{working}/root") && *times == vec![20]));
    let bad = load_incremental_snapshot(
        "New",
        "/profiles",
        "/cache",
        "profile.json",
        &strings(&["x"]),
        None,
    );
    assert!(matches!(&bad[..],
        [LoadStep::Clear(_), LoadStep::Fail(ArchiveError::BadTimestamp)]));
}

#[test]
fn archive_errors_say_what_is_wrong() {
    assert_eq!(ArchiveError::NoName.message(), Some("file name cannot be '..'"));
    assert_eq!(
        ArchiveError::NotBasic.message(),
        Some("inputted archive was not a basic snapshot")
    );
    assert_eq!(ArchiveError::BadTimestamp.message(), None);
}

/// A disk, as paths with the contents of files.
type Disk = BTreeMap<String, Option<Vec<u8>>>;

fn forget(disk: &mut Disk, dir: &str) {
    let inside = format!("{dir}/");
    disk.retain(|path, _| path != dir && !path.starts_with(&inside));
}

#[test]
fn basic_snapshots_give_the_directory_back() {
    let root = [
        ("", None),
        ("Config", None),
        ("Config/XComGame.ini", Some("[A]")),
        ("profile.json", Some("Example")),
    ];
    let entries: Vec<ArchiveEntry> = root
        .iter()
        .map(|(path, text)| ArchiveEntry {
            path: Some(path.to_string()),
            kind: if text.is_some() { EntryKind::File } else { EntryKind::Dir },
        })
        .collect();
    let (steps, failure) = archive_write_dir("", &entries);
    assert!(failure.is_none());
    let mut archive = Disk::new();
    for step in steps {
        match step {
            ArchiveStep::AddDirectory(name) => archive.insert(name, None),
            ArchiveStep::AddFile(name, i) => {
                archive.insert(name, root[i].1.map(|text| text.as_bytes().to_vec()))
            }
        };
    }

    let mut disk = Disk::new();
    disk.insert("/profiles/New".into(), None);
    disk.insert("/profiles/New/stale.txt".into(), Some(b"old".to_vec()));
    let load = |kind| load_basic_snapshot("New", "/profiles", "/cache", "profile.json", kind);
    assert!(matches!(
        load(SnapshotType::Incremental).as_slice(),
        [LoadStep::Fail(ArchiveError::NotBasic)]
    ));
    for step in load(SnapshotType::Basic) {
        match step {
            LoadStep::Clear(dir) | LoadStep::Discard(dir) | LoadStep::Remove(dir) => {
                forget(&mut disk, &dir)
            }
            LoadStep::Extract(dir) => {
                disk.insert(dir.clone(), None);
                for (name, contents) in &archive {
                    disk.insert(format!("{dir}/{name}"), contents.clone());
                }
            }
            LoadStep::Rename(path, name) => {
                disk.insert(path, Some(name.into_bytes()));
            }
            LoadStep::Move(from, to) => {
                for (path, contents) in disk.clone() {
                    if let Some(rest) = path.strip_prefix(&from) {
                        disk.insert(format!("{to}{rest}"), contents);
                    }
                }
                forget(&mut disk, &from);
            }
            LoadStep::Restore(_, _, _) | LoadStep::Fail(_) => panic!("unexpected step"),
        }
    }
    let found: Vec<(&str, Option<&[u8]>)> =
        disk.iter().map(|(path, text)| (path.as_str(), text.as_deref())).collect();
    assert_eq!(
        found,
        vec![
            ("/profiles/New", None),
            ("/profiles/New/Config", None),
            ("/profiles/New/Config/XComGame.ini", Some(b"[A]".as_slice())),
            ("/profiles/New/profile.json", Some(b"New".as_slice())),
        ]
    );
}

#[test]
fn unchanged_files_add_nothing() {
    let text = b"the same text".as_slice();
    assert!(generate_ops("a".into(), Some(text), Some(text)).is_empty());
    let long: Vec<u8> = (0..2000u32).map(|i| (i % 251) as u8).collect();
    assert!(generate_ops("a".into(), Some(&long), Some(&long)).is_empty());
    let empty = b"".as_slice();
    assert!(generate_ops("a".into(), Some(empty), Some(empty)).is_empty());
}
