use rust_shell::engine::{Action, Engine, Event, NodeKind, TransferError, TransferRequest};
use rust_shell::path::Path;
use rust_shell::policy::{Flags, Mode};

fn at(parts: &[&str]) -> Path {
    Path { anchor: "/".to_string(), parts: parts.iter().map(|p| p.to_string()).collect() }
}

fn names(words: &[&str]) -> Vec<String> {
    words.iter().map(|w| w.to_string()).collect()
}

fn start(source: &[&str], destination: &[&str], mode: Mode, yes: bool, no: bool, rename: bool) -> Engine {
    Engine::start(TransferRequest {
        source: at(source),
        destination: at(destination),
        mode,
        flags: Flags { auto_yes: yes, auto_no: no, auto_rename: rename },
        bound: 10000,
    })
}

#[test]
fn a_transfer_opens_with_two_probes() {
    let mut engine = start(&["src", "f.txt"], &["dst"], Mode::Copy, false, false, false);
    assert!(!engine.is_finished());
    assert_eq!(engine.pending(), Action::Probe(at(&["src", "f.txt"])));
    assert_eq!(engine.step(Event::Kind(NodeKind::File)), Action::Probe(at(&["dst"])));
    assert_eq!(engine.step(Event::Kind(NodeKind::Directory)), Action::Probe(at(&["dst", "f.txt"])));
    assert_eq!(
        engine.step(Event::Kind(NodeKind::Missing)),
        Action::CopyFile(at(&["src", "f.txt"]), at(&["dst", "f.txt"]))
    );
    assert_eq!(engine.step(Event::Done), Action::Finish(Ok(1)));
    assert!(engine.is_finished());
    assert_eq!(engine.step(Event::Done), Action::Finish(Ok(1)));
}

#[test]
fn a_missing_source_ends_the_transfer() {
    let mut engine = start(&["nowhere"], &["dst"], Mode::Copy, false, false, false);
    assert_eq!(
        engine.step(Event::Kind(NodeKind::Missing)),
        Action::Finish(Err(TransferError::SourceMissing))
    );
}

#[test]
fn the_destination_has_to_be_a_directory() {
    let mut engine = start(&["f"], &["dst"], Mode::Copy, false, false, false);
    engine.step(Event::Kind(NodeKind::File));
    assert_eq!(
        engine.step(Event::Kind(NodeKind::Missing)),
        Action::Finish(Err(TransferError::DestinationMissing))
    );
    let mut engine = start(&["f"], &["dst"], Mode::Move, false, false, false);
    engine.step(Event::Kind(NodeKind::File));
    assert_eq!(
        engine.step(Event::Kind(NodeKind::File)),
        Action::Finish(Err(TransferError::DestinationNotDirectory))
    );
}

#[test]
fn a_source_without_a_name_is_refused() {
    let mut engine = start(&[], &["dst"], Mode::Copy, false, false, false);
    engine.step(Event::Kind(NodeKind::Directory));
    assert_eq!(
        engine.step(Event::Kind(NodeKind::Directory)),
        Action::Finish(Err(TransferError::SourceUnnamed))
    );
    let mut engine = start(&["a", ".."], &["dst"], Mode::Copy, false, false, false);
    engine.step(Event::Kind(NodeKind::Directory));
    assert_eq!(
        engine.step(Event::Kind(NodeKind::Directory)),
        Action::Finish(Err(TransferError::SourceUnnamed))
    );
}

#[test]
fn a_source_that_is_neither_file_nor_directory_counts_nothing() {
    let mut engine = start(&["pipe"], &["dst"], Mode::Copy, false, false, false);
    engine.step(Event::Kind(NodeKind::Other));
    assert_eq!(engine.step(Event::Kind(NodeKind::Directory)), Action::Finish(Ok(0)));
}

#[test]
fn moving_a_file_removes_it_after_the_copy() {
    let mut engine = start(&["src", "f"], &["dst"], Mode::Move, true, false, false);
    engine.step(Event::Kind(NodeKind::File));
    engine.step(Event::Kind(NodeKind::Directory));
    assert_eq!(
        engine.step(Event::Kind(NodeKind::File)),
        Action::CopyFile(at(&["src", "f"]), at(&["dst", "f"]))
    );
    assert_eq!(engine.step(Event::Done), Action::RemoveFile(at(&["src", "f"])));
    assert_eq!(engine.step(Event::Done), Action::Finish(Ok(1)));
}

#[test]
fn a_failed_copy_is_reported_with_the_source() {
    let mut engine = start(&["src", "f"], &["dst"], Mode::Move, true, false, false);
    engine.step(Event::Kind(NodeKind::File));
    engine.step(Event::Kind(NodeKind::Directory));
    engine.step(Event::Kind(NodeKind::Missing));
    assert_eq!(
        engine.step(Event::Failed("disk full".to_string())),
        Action::Finish(Err(TransferError::Io(at(&["src", "f"]), "disk full".to_string())))
    );
}

#[test]
fn the_user_is_asked_until_the_answer_is_one_of_three() {
    let mut engine = start(&["src", "f.txt"], &["dst"], Mode::Copy, false, false, false);
    engine.step(Event::Kind(NodeKind::File));
    engine.step(Event::Kind(NodeKind::Directory));
    assert_eq!(engine.step(Event::Kind(NodeKind::File)), Action::Ask(at(&["src", "f.txt"])));
    assert_eq!(engine.step(Event::Answer("maybe\n".to_string())), Action::Ask(at(&["src", "f.txt"])));
    assert_eq!(engine.step(Event::Answer("\n".to_string())), Action::Ask(at(&["src", "f.txt"])));
    assert_eq!(
        engine.step(Event::Answer("y\n".to_string())),
        Action::CopyFile(at(&["src", "f.txt"]), at(&["dst", "f.txt"]))
    );
}

#[test]
fn answering_no_skips_the_file_without_error() {
    let mut engine = start(&["src", "f.txt"], &["dst"], Mode::Move, false, false, false);
    engine.step(Event::Kind(NodeKind::File));
    engine.step(Event::Kind(NodeKind::Directory));
    engine.step(Event::Kind(NodeKind::File));
    assert_eq!(engine.step(Event::Answer("n\n".to_string())), Action::Finish(Ok(0)));
}

#[test]
fn answering_rename_starts_the_search_at_two() {
    let mut engine = start(&["src", "f.txt"], &["dst"], Mode::Copy, false, false, false);
    engine.step(Event::Kind(NodeKind::File));
    engine.step(Event::Kind(NodeKind::Directory));
    engine.step(Event::Kind(NodeKind::File));
    assert_eq!(
        engine.step(Event::Answer("r\n".to_string())),
        Action::Probe(at(&["dst", "f (2).txt"]))
    );
    assert_eq!(engine.step(Event::Kind(NodeKind::File)), Action::Probe(at(&["dst", "f (3).txt"])));
    assert_eq!(
        engine.step(Event::Kind(NodeKind::Missing)),
        Action::CopyFile(at(&["src", "f.txt"]), at(&["dst", "f (3).txt"]))
    );
    assert_eq!(engine.step(Event::Done), Action::Finish(Ok(1)));
}

#[test]
fn the_search_ends_at_ten_thousand() {
    let mut engine = start(&["src", "f.txt"], &["dst"], Mode::Copy, true, false, true);
    engine.step(Event::Kind(NodeKind::File));
    engine.step(Event::Kind(NodeKind::Directory));
    let mut action = engine.step(Event::Kind(NodeKind::File));
    let mut probes = 0;
    while let Action::Probe(_) = action {
        probes += 1;
        if probes == 9999 {
            assert_eq!(action, Action::Probe(at(&["dst", "f (10000).txt"])));
        }
        action = engine.step(Event::Kind(NodeKind::File));
    }
    assert_eq!(probes, 9999);
    assert_eq!(action, Action::Finish(Err(TransferError::BoundExceeded(at(&["dst", "f.txt"])))));
}

#[test]
fn a_directory_is_mirrored_and_walked() {
    let mut engine = start(&["src", "proj"], &["dst"], Mode::Move, false, false, false);
    engine.step(Event::Kind(NodeKind::Directory));
    assert_eq!(engine.step(Event::Kind(NodeKind::Directory)), Action::Probe(at(&["dst", "proj"])));
    assert_eq!(engine.step(Event::Kind(NodeKind::Missing)), Action::CreateDir(at(&["dst", "proj"])));
    assert_eq!(engine.step(Event::Done), Action::ListDir(at(&["src", "proj"])));
    assert_eq!(
        engine.step(Event::Entries(names(&["a", "sub"]))),
        Action::Probe(at(&["src", "proj", "a"]))
    );
    assert_eq!(engine.step(Event::Kind(NodeKind::File)), Action::Probe(at(&["dst", "proj", "a"])));
    assert_eq!(
        engine.step(Event::Kind(NodeKind::Missing)),
        Action::CopyFile(at(&["src", "proj", "a"]), at(&["dst", "proj", "a"]))
    );
    assert_eq!(engine.step(Event::Done), Action::RemoveFile(at(&["src", "proj", "a"])));
    assert_eq!(engine.step(Event::Done), Action::Probe(at(&["src", "proj", "sub"])));
    assert_eq!(
        engine.step(Event::Kind(NodeKind::Directory)),
        Action::Probe(at(&["dst", "proj", "sub"]))
    );
    assert_eq!(
        engine.step(Event::Kind(NodeKind::Directory)),
        Action::ListDir(at(&["src", "proj", "sub"]))
    );
    assert_eq!(engine.step(Event::Entries(names(&[]))), Action::RemoveDir(at(&["src", "proj", "sub"])));
    assert_eq!(engine.step(Event::Done), Action::RemoveDir(at(&["src", "proj"])));
    assert_eq!(engine.step(Event::Done), Action::Finish(Ok(1)));
}

#[test]
fn a_directory_that_is_not_empty_cannot_be_removed() {
    let mut engine = start(&["src", "proj"], &["dst"], Mode::Move, false, false, false);
    engine.step(Event::Kind(NodeKind::Directory));
    engine.step(Event::Kind(NodeKind::Directory));
    engine.step(Event::Kind(NodeKind::Directory));
    engine.step(Event::Entries(names(&["a"])));
    engine.step(Event::Kind(NodeKind::File));
    engine.step(Event::Kind(NodeKind::File));
    assert_eq!(engine.step(Event::Answer("n".to_string())), Action::RemoveDir(at(&["src", "proj"])));
    assert_eq!(
        engine.step(Event::Failed("Directory not empty".to_string())),
        Action::Finish(Err(TransferError::Io(at(&["src", "proj"]), "Directory not empty".to_string())))
    );
}

#[test]
fn an_event_that_answers_nothing_changes_nothing() {
    let mut engine = start(&["src", "f"], &["dst"], Mode::Copy, false, false, false);
    assert_eq!(engine.step(Event::Done), Action::Probe(at(&["src", "f"])));
    assert_eq!(engine.step(Event::Entries(names(&["x"]))), Action::Probe(at(&["src", "f"])));
    assert_eq!(engine.step(Event::Answer("y".to_string())), Action::Probe(at(&["src", "f"])));
}

#[test]
fn copying_leaves_exhausted_directories_without_removal() {
    let mut engine = start(&["t"], &["d"], Mode::Copy, true, false, false);
    engine.step(Event::Kind(NodeKind::Directory));
    engine.step(Event::Kind(NodeKind::Directory));
    engine.step(Event::Kind(NodeKind::Directory));
    engine.step(Event::Entries(names(&["sub"])));
    engine.step(Event::Kind(NodeKind::Directory));
    engine.step(Event::Kind(NodeKind::Directory));
    engine.step(Event::Entries(names(&["f"])));
    engine.step(Event::Kind(NodeKind::File));
    assert_eq!(
        engine.step(Event::Kind(NodeKind::File)),
        Action::CopyFile(at(&["t", "sub", "f"]), at(&["d", "t", "sub", "f"]))
    );
    assert_eq!(engine.step(Event::Done), Action::Finish(Ok(1)));
}
