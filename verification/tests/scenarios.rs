use rust_shell::engine::{Action, Event, NodeKind, TransferError, TransferRequest};
use rust_shell::memfs::MemFs;
use rust_shell::path::Path;
use rust_shell::policy::{Flags, Mode};
use rust_shell::transfer::transfer;

fn path(parts: &[&str]) -> Path {
    Path { anchor: "/".to_string(), parts: parts.iter().map(|p| p.to_string()).collect() }
}

fn flags(auto_yes: bool, auto_no: bool, auto_rename: bool) -> Flags {
    Flags { auto_yes, auto_no, auto_rename }
}

fn request(source: Path, destination: Path, mode: Mode, flags: Flags) -> TransferRequest {
    TransferRequest { source, destination, mode, flags, bound: 10000 }
}

fn tree(dirs: &[&[&str]], files: &[(&[&str], &[u8])]) -> MemFs {
    let mut fs = MemFs::new();
    assert!(fs.write(&path(&["never"]), vec![]) == false);
    let made = fs.perform(&Action::CreateDir(path(&[])));
    assert_eq!(made, Event::Done);
    for dir in dirs {
        let made = fs.perform(&Action::CreateDir(path(dir)));
        assert_eq!(made, Event::Done);
    }
    for (file, bytes) in files {
        assert!(fs.write(&path(file), bytes.to_vec()));
    }
    fs
}

#[test]
fn copy_single_file_into_directory() {
    let mut fs = tree(&[&["src"], &["dst"]], &[(&["src", "report.txt"], b"0123456789")]);
    let result = transfer(
        &mut fs,
        request(path(&["src", "report.txt"]), path(&["dst"]), Mode::Copy, flags(false, false, false)),
        &vec![],
        100,
    );
    assert_eq!(result, Some(Ok(1)));
    assert_eq!(fs.read(&path(&["dst", "report.txt"])), Some(b"0123456789".to_vec()));
    assert_eq!(fs.read(&path(&["src", "report.txt"])), Some(b"0123456789".to_vec()));
}

#[test]
fn move_directory_with_two_files() {
    let mut fs = tree(
        &[&["src"], &["dst"], &["src", "proj"]],
        &[(&["src", "proj", "a.txt"], b"aa"), (&["src", "proj", "b.txt"], b"bbb")],
    );
    let result = transfer(
        &mut fs,
        request(path(&["src", "proj"]), path(&["dst"]), Mode::Move, flags(false, false, false)),
        &vec![],
        100,
    );
    assert_eq!(result, Some(Ok(2)));
    assert_eq!(fs.read(&path(&["dst", "proj", "a.txt"])), Some(b"aa".to_vec()));
    assert_eq!(fs.read(&path(&["dst", "proj", "b.txt"])), Some(b"bbb".to_vec()));
    assert_eq!(fs.kind(&path(&["src", "proj"])), NodeKind::Missing);
    assert_eq!(fs.kind(&path(&["src"])), NodeKind::Directory);
}

#[test]
fn collision_with_yes_and_rename_takes_first_free_number() {
    let mut fs = tree(
        &[&["src"], &["dst"]],
        &[
            (&["src", "x.txt"], b"new"),
            (&["dst", "x.txt"], b"old"),
            (&["dst", "x (2).txt"], b"older"),
        ],
    );
    let result = transfer(
        &mut fs,
        request(path(&["src", "x.txt"]), path(&["dst"]), Mode::Copy, flags(true, false, true)),
        &vec![],
        100,
    );
    assert_eq!(result, Some(Ok(1)));
    assert_eq!(fs.read(&path(&["dst", "x (3).txt"])), Some(b"new".to_vec()));
    assert_eq!(fs.read(&path(&["dst", "x.txt"])), Some(b"old".to_vec()));
    assert_eq!(fs.read(&path(&["dst", "x (2).txt"])), Some(b"older".to_vec()));
}

#[test]
fn self_transfer_is_refused() {
    let mut fs = tree(&[&["a"]], &[(&["a", "f.txt"], b"data")]);
    let result = transfer(
        &mut fs,
        request(path(&["a", "f.txt"]), path(&["a"]), Mode::Move, flags(true, false, false)),
        &vec![],
        100,
    );
    assert_eq!(result, Some(Err(TransferError::SameLocation(path(&["a", "f.txt"])))));
    assert_eq!(fs.read(&path(&["a", "f.txt"])), Some(b"data".to_vec()));
}

#[test]
fn copy_mirrors_a_tree_and_counts_its_files() {
    let mut fs = tree(
        &[&["t"], &["t", "a"], &["t", "a", "deep"], &["t", "empty"], &["d"], &["d", "t"]],
        &[
            (&["t", "one"], b"1"),
            (&["t", "a", "two"], b"22"),
            (&["t", "a", "deep", "three"], b"333"),
            (&["d", "t", "one"], b"old"),
        ],
    );
    let result = transfer(
        &mut fs,
        request(path(&["t"]), path(&["d"]), Mode::Copy, flags(true, false, false)),
        &vec![],
        1000,
    );
    assert_eq!(result, Some(Ok(3)));
    assert_eq!(fs.read(&path(&["d", "t", "one"])), Some(b"1".to_vec()));
    assert_eq!(fs.read(&path(&["d", "t", "a", "two"])), Some(b"22".to_vec()));
    assert_eq!(fs.read(&path(&["d", "t", "a", "deep", "three"])), Some(b"333".to_vec()));
    assert_eq!(fs.kind(&path(&["d", "t", "empty"])), NodeKind::Directory);
    assert_eq!(fs.read(&path(&["t", "one"])), Some(b"1".to_vec()));
    assert_eq!(fs.read(&path(&["t", "a", "deep", "three"])), Some(b"333".to_vec()));
}

#[test]
fn refusing_collisions_stops_at_the_first_and_keeps_what_was_done() {
    let mut fs = tree(
        &[&["t"], &["d"], &["d", "t"]],
        &[(&["t", "a"], b"new a"), (&["t", "b"], b"new b"), (&["d", "t", "b"], b"old b")],
    );
    let result = transfer(
        &mut fs,
        request(path(&["t"]), path(&["d"]), Mode::Copy, flags(false, true, false)),
        &vec![],
        1000,
    );
    assert_eq!(result, Some(Err(TransferError::AlreadyExists(path(&["d", "t", "b"])))));
    assert_eq!(fs.read(&path(&["d", "t", "b"])), Some(b"old b".to_vec()));
    assert_eq!(fs.read(&path(&["d", "t", "a"])), Some(b"new a".to_vec()));
    assert_eq!(fs.read(&path(&["t", "a"])), Some(b"new a".to_vec()));
    assert_eq!(fs.read(&path(&["t", "b"])), Some(b"new b".to_vec()));
}

#[test]
fn a_refused_top_level_collision_changes_nothing() {
    let mut fs = tree(&[&["s"], &["d"]], &[(&["s", "f"], b"new"), (&["d", "f"], b"old")]);
    let before = fs.len();
    let result = transfer(
        &mut fs,
        request(path(&["s", "f"]), path(&["d"]), Mode::Move, flags(false, true, false)),
        &vec![],
        1000,
    );
    assert_eq!(result, Some(Err(TransferError::AlreadyExists(path(&["d", "f"])))));
    assert_eq!(fs.len(), before);
    assert_eq!(fs.read(&path(&["d", "f"])), Some(b"old".to_vec()));
    assert_eq!(fs.read(&path(&["s", "f"])), Some(b"new".to_vec()));
}

#[test]
fn the_rename_search_gives_up_at_its_bound() {
    let mut fs = tree(
        &[&["s"], &["d"]],
        &[
            (&["s", "x.txt"], b"new"),
            (&["d", "x.txt"], b"0"),
            (&["d", "x (2).txt"], b"2"),
            (&["d", "x (3).txt"], b"3"),
            (&["d", "x (4).txt"], b"4"),
            (&["d", "x (5).txt"], b"5"),
        ],
    );
    let before = fs.len();
    let result = transfer(
        &mut fs,
        request(path(&["s", "x.txt"]), path(&["d"]), Mode::Copy, flags(true, false, true)).with_bound(5),
        &vec![],
        1000,
    );
    assert_eq!(result, Some(Err(TransferError::BoundExceeded(path(&["d", "x.txt"])))));
    assert_eq!(fs.len(), before);
}

#[test]
fn overwriting_replaces_the_bytes() {
    let mut fs = tree(&[&["s"], &["d"]], &[(&["s", "f"], b"new"), (&["d", "f"], b"old")]);
    let result = transfer(
        &mut fs,
        request(path(&["s", "f"]), path(&["d"]), Mode::Move, flags(true, false, false)),
        &vec![],
        1000,
    );
    assert_eq!(result, Some(Ok(1)));
    assert_eq!(fs.read(&path(&["d", "f"])), Some(b"new".to_vec()));
    assert_eq!(fs.kind(&path(&["s", "f"])), NodeKind::Missing);
}

#[test]
fn answers_are_taken_from_the_script_in_order() {
    let mut fs = tree(
        &[&["t"], &["d"], &["d", "t"]],
        &[
            (&["t", "a"], b"A"),
            (&["t", "b"], b"B"),
            (&["t", "c"], b"C"),
            (&["d", "t", "a"], b"a"),
            (&["d", "t", "b"], b"b"),
            (&["d", "t", "c"], b"c"),
        ],
    );
    let answers = vec!["n".to_string(), "what".to_string(), "y".to_string(), "r".to_string()];
    let result = transfer(
        &mut fs,
        request(path(&["t"]), path(&["d"]), Mode::Copy, flags(false, false, false)),
        &answers,
        1000,
    );
    assert_eq!(result, Some(Ok(2)));
    assert_eq!(fs.read(&path(&["d", "t", "a"])), Some(b"a".to_vec()));
    assert_eq!(fs.read(&path(&["d", "t", "b"])), Some(b"B".to_vec()));
    assert_eq!(fs.read(&path(&["d", "t", "c"])), Some(b"c".to_vec()));
    assert_eq!(fs.read(&path(&["d", "t", "c (2)"])), Some(b"C".to_vec()));
}

#[test]
fn a_transfer_that_runs_out_of_steps_or_answers_has_no_result() {
    let mut fs = tree(&[&["s"], &["d"]], &[(&["s", "f"], b"new"), (&["d", "f"], b"old")]);
    let asked = transfer(
        &mut fs,
        request(path(&["s", "f"]), path(&["d"]), Mode::Copy, flags(false, false, false)),
        &vec![],
        1000,
    );
    assert_eq!(asked, None);
    let short = transfer(
        &mut fs,
        request(path(&["s", "f"]), path(&["d"]), Mode::Copy, flags(true, false, false)),
        &vec![],
        3,
    );
    assert_eq!(short, None);
    assert_eq!(fs.read(&path(&["d", "f"])), Some(b"old".to_vec()));
}

#[test]
fn a_skipped_file_keeps_a_moved_directory_from_being_removed() {
    let mut fs = tree(
        &[&["t"], &["d"], &["d", "t"]],
        &[(&["t", "a"], b"A"), (&["t", "b"], b"B"), (&["d", "t", "a"], b"a")],
    );
    let result = transfer(
        &mut fs,
        request(path(&["t"]), path(&["d"]), Mode::Move, flags(false, false, false)),
        &vec!["n".to_string()],
        1000,
    );
    assert_eq!(
        result,
        Some(Err(TransferError::Io(path(&["t"]), "cannot remove directory".to_string())))
    );
    assert_eq!(fs.read(&path(&["d", "t", "b"])), Some(b"B".to_vec()));
    assert_eq!(fs.read(&path(&["t", "a"])), Some(b"A".to_vec()));
    assert_eq!(fs.kind(&path(&["t", "b"])), NodeKind::Missing);
}

#[test]
fn the_tree_refuses_what_cannot_be_done() {
    let mut fs = tree(&[&["d"]], &[(&["d", "f"], b"x")]);
    assert_eq!(
        fs.perform(&Action::CopyFile(path(&["d", "nothing"]), path(&["d", "g"]))),
        Event::Failed("cannot copy".to_string())
    );
    assert_eq!(
        fs.perform(&Action::CopyFile(path(&["d", "f"]), path(&["nowhere", "g"]))),
        Event::Failed("cannot copy".to_string())
    );
    assert_eq!(
        fs.perform(&Action::RemoveFile(path(&["d"]))),
        Event::Failed("cannot remove file".to_string())
    );
    assert_eq!(
        fs.perform(&Action::CreateDir(path(&["d"]))),
        Event::Failed("cannot create directory".to_string())
    );
    assert_eq!(
        fs.perform(&Action::ListDir(path(&["d", "f"]))),
        Event::Failed("cannot read directory".to_string())
    );
    assert_eq!(
        fs.perform(&Action::RemoveDir(path(&["d"]))),
        Event::Failed("cannot remove directory".to_string())
    );
    assert_eq!(
        fs.perform(&Action::Ask(path(&["d"]))),
        Event::Failed("not a filesystem operation".to_string())
    );
    assert_eq!(fs.perform(&Action::ListDir(path(&["d"]))), Event::Entries(vec!["f".to_string()]));
    assert_eq!(fs.perform(&Action::Probe(path(&["d", "f"]))), Event::Kind(NodeKind::File));
    assert_eq!(fs.perform(&Action::RemoveFile(path(&["d", "f"]))), Event::Done);
    assert_eq!(fs.perform(&Action::RemoveDir(path(&["d"]))), Event::Done);
    assert_eq!(fs.len(), 1);
}

#[test]
fn a_directory_is_not_moved_onto_itself() {
    let mut fs = tree(&[&["a"], &["a", "empty"]], &[]);
    let before = fs.len();
    let result = transfer(
        &mut fs,
        request(path(&["a", "empty"]), path(&["a"]), Mode::Move, flags(true, false, false)),
        &vec![],
        100,
    );
    assert_eq!(result, Some(Err(TransferError::SameLocation(path(&["a", "empty"])))));
    assert_eq!(fs.len(), before);
    assert_eq!(fs.kind(&path(&["a", "empty"])), NodeKind::Directory);
}

#[test]
fn a_missing_source_or_destination_is_reported() {
    let mut fs = tree(&[&["d"]], &[(&["f"], b"x")]);
    let missing = transfer(
        &mut fs,
        request(path(&["nothing"]), path(&["d"]), Mode::Copy, flags(false, false, false)),
        &vec![],
        100,
    );
    assert_eq!(missing, Some(Err(TransferError::SourceMissing)));
    let nowhere = transfer(
        &mut fs,
        request(path(&["f"]), path(&["nowhere"]), Mode::Copy, flags(false, false, false)),
        &vec![],
        100,
    );
    assert_eq!(nowhere, Some(Err(TransferError::DestinationMissing)));
    let onto_file = transfer(
        &mut fs,
        request(path(&["d"]), path(&["f"]), Mode::Copy, flags(false, false, false)),
        &vec![],
        100,
    );
    assert_eq!(onto_file, Some(Err(TransferError::DestinationNotDirectory)));
    let unnamed = transfer(
        &mut fs,
        request(path(&[]), path(&["d"]), Mode::Copy, flags(false, false, false)),
        &vec![],
        100,
    );
    assert_eq!(unnamed, Some(Err(TransferError::SourceUnnamed)));
}

#[test]
fn a_file_cannot_replace_a_directory() {
    let mut fs = tree(&[&["s"], &["d"], &["d", "x"]], &[(&["s", "x"], b"file")]);
    let result = transfer(
        &mut fs,
        request(path(&["s", "x"]), path(&["d"]), Mode::Copy, flags(true, false, false)),
        &vec![],
        100,
    );
    assert_eq!(
        result,
        Some(Err(TransferError::Io(path(&["s", "x"]), "cannot copy".to_string())))
    );
    assert_eq!(fs.kind(&path(&["d", "x"])), NodeKind::Directory);
}

#[test]
fn a_copy_takes_four_actions_for_each_entry_at_most() {
    let mut fs = tree(
        &[&["t"], &["t", "a"], &["t", "a", "deep"], &["t", "empty"], &["d"]],
        &[
            (&["t", "one"], b"1"),
            (&["t", "a", "two"], b"22"),
            (&["t", "a", "deep", "three"], b"333"),
        ],
    );
    let result = transfer(
        &mut fs,
        request(path(&["t"]), path(&["d"]), Mode::Copy, flags(true, false, false)),
        &vec![],
        4 * 7 + 2,
    );
    assert_eq!(result, Some(Ok(3)));
    assert_eq!(fs.read(&path(&["d", "t", "a", "deep", "three"])), Some(b"333".to_vec()));
}

#[test]
fn moving_a_tree_carries_every_file_and_leaves_nothing() {
    let mut fs = tree(
        &[&["t"], &["t", "a"], &["t", "a", "deep"], &["t", "empty"], &["d"]],
        &[
            (&["t", "one"], b"1"),
            (&["t", "a", "two"], b"22"),
            (&["t", "a", "deep", "three"], b"333"),
        ],
    );
    let result = transfer(
        &mut fs,
        request(path(&["t"]), path(&["d"]), Mode::Move, flags(true, false, false)),
        &vec![],
        1000,
    );
    assert_eq!(result, Some(Ok(3)));
    assert_eq!(fs.read(&path(&["d", "t", "one"])), Some(b"1".to_vec()));
    assert_eq!(fs.read(&path(&["d", "t", "a", "two"])), Some(b"22".to_vec()));
    assert_eq!(fs.read(&path(&["d", "t", "a", "deep", "three"])), Some(b"333".to_vec()));
    assert_eq!(fs.kind(&path(&["d", "t", "empty"])), NodeKind::Directory);
    assert_eq!(fs.kind(&path(&["t"])), NodeKind::Missing);
    assert_eq!(fs.kind(&path(&["t", "a", "deep", "three"])), NodeKind::Missing);
    assert_eq!(fs.len(), 9);
}
