//! What a transfer does to a tree, proved of the engine run against the
//! in-memory filesystem.
//!
//! Each statement speaks of `begin(fs, request).run(answers, steps)`, the
//! state that `transfer` leaves behind, so it holds of every call of
//! `transfer` on a well-formed tree.

use vstd::prelude::*;
use crate::engine::ActionV;
use crate::engine::EngineV;
use crate::engine::ErrorV;
use crate::engine::EventV;
use crate::engine::FrameV;
use crate::engine::NodeKind;
use crate::engine::Phase;
use crate::engine::TransferRequest;
use crate::memfs::lemma_after_wf;
use crate::memfs::lemma_parent_is_directory;
use crate::memfs::lemma_removed;
use crate::memfs::lemma_stored;
use crate::memfs::FsV;
use crate::memfs::NodeV;
use crate::path::PathV;
use crate::policy::Mode;
use crate::rename::first_free;
use crate::rename::lemma_first_free;
use crate::rename::numbered;
use crate::rename::FIRST_NUMBER;
use crate::transfer::begin;
use crate::transfer::lemma_run_split;
use crate::transfer::lemma_run_stays;
use crate::transfer::lemma_run_unfold;
use crate::transfer::lemma_step_counts_one;
use crate::transfer::RunV;

verus! {

/// The path that the top-level source of `request` is written to.
pub open spec fn top_target(request: TransferRequest) -> PathV {
    request.destination@.child(request.source@.name())
}

/// What holds of one state holds of all later ones, if every step keeps it.
pub proof fn lemma_run_keeps(
    inv: spec_fn(RunV) -> bool,
    s: RunV,
    answers: Seq<Seq<char>>,
    steps: nat,
)
    requires
        inv(s),
        forall|t: RunV| inv(t) ==> inv(#[trigger] t.next(answers)),
    ensures
        inv(s.run(answers, steps)),
    decreases steps,
{
    lemma_run_unfold(s, answers, steps);
    if steps > 0 {
        lemma_run_keeps(inv, s.next(answers), answers, (steps - 1) as nat);
    }
}

/// One step of a run is `next`.
pub proof fn lemma_run_one(s: RunV, answers: Seq<Seq<char>>)
    ensures
        s.run(answers, 1) == s.next(answers),
{
    lemma_run_unfold(s, answers, 1);
    lemma_run_unfold(s.next(answers), answers, 0);
}

/// Two steps of a run are `next` twice.
pub proof fn lemma_run_two(s: RunV, answers: Seq<Seq<char>>)
    ensures
        s.run(answers, 2) == s.next(answers).next(answers),
{
    lemma_run_unfold(s, answers, 2);
    lemma_run_one(s.next(answers), answers);
}

/// The first two actions of a transfer probe the source and the
/// destination. Where the source exists and the destination is a directory
/// the tree is as before; the transfer is over if the source would be
/// written onto itself, and else the source has been classified.
proof fn lemma_opening(fs: FsV, request: TransferRequest, answers: Seq<Seq<char>>)
    requires
        fs.kind(request.source@) != NodeKind::Missing,
        fs.kind(request.destination@) == NodeKind::Directory,
        request.source@.has_name(),
    ensures
        begin(fs, request).run(answers, 2) == (RunV {
            fs,
            engine: if request.source@ == top_target(request) {
                (EngineV { top_kind: fs.kind(request.source@), ..begin(fs, request).engine }).finish(
                    Err(ErrorV::SameLocation(request.source@)),
                )
            } else {
                (EngineV {
                    top_kind: fs.kind(request.source@),
                    ..begin(fs, request).engine
                }).classify(fs.kind(request.source@))
            },
            asked: 0,
        }),
{
    let s0 = begin(fs, request);
    let s1 = s0.next(answers);
    let s2 = s1.next(answers);
    assert(s0.engine.pending() == ActionV::Probe(request.source@));
    assert(fs.answer(ActionV::Probe(request.source@)) == EventV::Kind(fs.kind(request.source@)));
    assert(s1.fs == fs);
    assert(s1.engine == EngineV {
        top_kind: fs.kind(request.source@),
        phase: Phase::CheckDestination,
        ..s0.engine
    });
    assert(s1.engine.pending() == ActionV::Probe(request.destination@));
    assert(s2.fs == fs);
    lemma_run_two(s0, answers);
}

/// The error of a transfer that cannot begin: the source is missing, the
/// destination is missing or no directory, or the source has no name.
pub open spec fn refused_at_once(fs: FsV, request: TransferRequest) -> Option<ErrorV> {
    if fs.kind(request.source@) == NodeKind::Missing {
        Some(ErrorV::SourceMissing)
    } else if fs.kind(request.destination@) == NodeKind::Missing {
        Some(ErrorV::DestinationMissing)
    } else if fs.kind(request.destination@) != NodeKind::Directory {
        Some(ErrorV::DestinationNotDirectory)
    } else if !request.source@.has_name() {
        Some(ErrorV::SourceUnnamed)
    } else if request.source@ == top_target(request) {
        Some(ErrorV::SameLocation(request.source@))
    } else {
        None
    }
}

/// Source and destination are checked once, before anything is touched: a
/// transfer that cannot begin ends with its error after two probes at most
/// and leaves the tree as it was. So a move that has succeeded cannot be
/// repeated: its source is missing.
pub proof fn law_checked_before_touching(
    fs: FsV,
    request: TransferRequest,
    answers: Seq<Seq<char>>,
    steps: nat,
)
    requires
        steps >= 2,
    ensures
        match refused_at_once(fs, request) {
            Some(error) => {
                &&& begin(fs, request).run(answers, steps).result() == Some(
                    Err::<nat, ErrorV>(error),
                )
                &&& begin(fs, request).run(answers, steps).fs == fs
            },
            None => true,
        },
{
    let s0 = begin(fs, request);
    let s1 = s0.next(answers);
    let s2 = s1.next(answers);
    assert(s0.engine.pending() == ActionV::Probe(request.source@));
    assert(fs.answer(ActionV::Probe(request.source@)) == EventV::Kind(fs.kind(request.source@)));
    assert(s1.fs == fs);
    if fs.kind(request.source@) != NodeKind::Missing {
        assert(s1.engine.pending() == ActionV::Probe(request.destination@));
        assert(s2.fs == fs);
    }
    lemma_run_two(s0, answers);
    lemma_run_split(s0, answers, 2, (steps - 2) as nat);
    if refused_at_once(fs, request) is Some {
        assert(s2.engine.phase == Phase::Finished);
        lemma_run_stays(s2, answers, (steps - 2) as nat);
    }
}

/// Nothing is ever transferred onto itself: where the source, a file or a
/// directory, stands directly in the destination directory, the transfer
/// ends with `SameLocation` after two probes and the tree is untouched,
/// whatever the mode and the flags.
pub proof fn law_self_transfer_refused(
    fs: FsV,
    request: TransferRequest,
    answers: Seq<Seq<char>>,
    steps: nat,
)
    requires
        fs.wf(),
        fs.has(request.source@),
        request.source@.has_name(),
        request.source@.parent() == request.destination@,
        steps >= 2,
    ensures
        begin(fs, request).run(answers, steps).result() == Some(
            Err::<nat, ErrorV>(ErrorV::SameLocation(request.source@)),
        ),
        begin(fs, request).run(answers, steps).fs == fs,
{
    let source = request.source@;
    lemma_parent_is_directory(fs, source);
    assert(source.parts =~= source.parent().parts.push(source.name()));
    assert(top_target(request) == source);
    lemma_opening(fs, request, answers);
    let s2 = begin(fs, request).run(answers, 2);
    assert(s2.engine.phase == Phase::Finished);
    lemma_run_split(begin(fs, request), answers, 2, (steps - 2) as nat);
    lemma_run_stays(s2, answers, (steps - 2) as nat);
}

/// Copying a file whose name is free in the destination directory puts its
/// bytes under that name, leaves the source and everything else as it was,
/// and counts one file, whatever the flags say.
pub proof fn law_copy_file_to_free_name(
    fs: FsV,
    request: TransferRequest,
    answers: Seq<Seq<char>>,
    steps: nat,
)
    requires
        fs.wf(),
        request.mode == Mode::Copy,
        fs.kind(request.source@) == NodeKind::File,
        request.source@.has_name(),
        fs.kind(request.destination@) == NodeKind::Directory,
        fs.kind(top_target(request)) == NodeKind::Missing,
        steps >= 4,
    ensures
        begin(fs, request).run(answers, steps).result() == Some(Ok::<nat, ErrorV>(1)),
        begin(fs, request).run(answers, steps).fs == fs.stored(
            top_target(request),
            fs.node(request.source@).unwrap(),
        ),
        begin(fs, request).run(answers, steps).fs.node(request.source@) == fs.node(
            request.source@,
        ),
        begin(fs, request).run(answers, steps).fs.node(top_target(request)) == fs.node(
            request.source@,
        ),
        forall|q: PathV|
            q != top_target(request) ==> begin(fs, request).run(answers, steps).fs.node(q)
                == fs.node(q),
{
    let source = request.source@;
    let target = top_target(request);
    lemma_opening(fs, request, answers);
    let s0 = begin(fs, request);
    let s2 = s0.run(answers, 2);
    assert(s2.engine.phase == Phase::Collide);
    let s3 = s2.next(answers);
    assert(s2.engine.pending() == ActionV::Probe(target));
    assert(fs.answer(ActionV::Probe(target)) == EventV::Kind(NodeKind::Missing));
    assert(s3.engine.phase == Phase::Copying);
    assert(s3.fs == fs);
    let s4 = s3.next(answers);
    assert(s3.engine.pending() == ActionV::CopyFile(source, target));
    assert(target.parts.len() > 0);
    assert(target.parts.drop_last() =~= request.destination@.parts);
    assert(target.parent() == request.destination@);
    assert(fs.accepts(ActionV::CopyFile(source, target)));
    assert(s4.fs == fs.stored(target, fs.node(source).unwrap()));
    assert(s3.engine.stack.len() == 0);
    assert(s4.engine.phase == Phase::Finished);
    assert(s4.engine.outcome == Ok::<nat, ErrorV>(1));
    lemma_run_two(s2, answers);
    lemma_run_split(s0, answers, 2, 2);
    lemma_run_split(s0, answers, 4, (steps - 4) as nat);
    lemma_run_stays(s4, answers, (steps - 4) as nat);
    lemma_stored(fs, target, fs.node(source).unwrap());
}

/// Where collisions are refused and the destination name of a file is
/// taken, the transfer ends with `AlreadyExists` for that name and the tree
/// is untouched.
pub proof fn law_collision_refused(
    fs: FsV,
    request: TransferRequest,
    answers: Seq<Seq<char>>,
    steps: nat,
)
    requires
        fs.wf(),
        request.flags.auto_no,
        fs.kind(request.source@) == NodeKind::File,
        request.source@.has_name(),
        fs.kind(request.destination@) == NodeKind::Directory,
        fs.kind(top_target(request)) != NodeKind::Missing,
        request.source@ != top_target(request),
        steps >= 3,
    ensures
        begin(fs, request).run(answers, steps).result() == Some(
            Err::<nat, ErrorV>(ErrorV::AlreadyExists(top_target(request))),
        ),
        begin(fs, request).run(answers, steps).fs == fs,
{
    let target = top_target(request);
    lemma_opening(fs, request, answers);
    let s0 = begin(fs, request);
    let s2 = s0.run(answers, 2);
    assert(s2.engine.phase == Phase::Collide);
    let s3 = s2.next(answers);
    assert(s2.engine.pending() == ActionV::Probe(target));
    assert(fs.answer(ActionV::Probe(target)) == EventV::Kind(fs.kind(target)));
    assert(s3.engine.phase == Phase::Finished);
    lemma_run_one(s2, answers);
    lemma_run_split(s0, answers, 2, 1);
    lemma_run_split(s0, answers, 3, (steps - 3) as nat);
    lemma_run_stays(s3, answers, (steps - 3) as nat);
}

/// When copying, moving on to the next element never leads to a removal.
proof fn lemma_copy_advance(e: EngineV)
    requires
        e.mode == Mode::Copy,
    ensures
        e.advance().phase == Phase::Classify || e.advance().phase == Phase::Finished,
    decreases e.stack.len(),
{
    if e.stack.len() > 0 {
        let top = e.stack.last();
        if top.next >= top.names.len() {
            lemma_copy_advance(EngineV { stack: e.stack.drop_last(), ..e });
        }
    }
}

/// When copying, the engine never asks for a removal.
pub proof fn lemma_copy_never_removes(e: EngineV, event: EventV)
    requires
        e.mode == Mode::Copy,
        e.phase != Phase::Removing,
        e.phase != Phase::RemovingDir,
    ensures
        e.step(event).mode == Mode::Copy,
        e.step(event).phase != Phase::Removing,
        e.step(event).phase != Phase::RemovingDir,
{
    lemma_step_counts_one(e, event);
    lemma_copy_advance(e);
    lemma_copy_advance(e.counted());
    match event {
        EventV::Entries(names) => {
            lemma_copy_advance(
                EngineV {
                    stack: e.stack.push(
                        FrameV { source: e.source, target: e.target, names, next: 0 },
                    ),
                    ..e
                },
            );
        },
        _ => {},
    }
}

/// An action that is no removal leaves every entry in place, with its kind.
pub proof fn lemma_after_keeps_entries(fs: FsV, action: ActionV)
    requires
        fs.wf(),
        !(action is RemoveFile),
        !(action is RemoveDir),
    ensures
        forall|q: PathV|
            fs.has(q) ==> #[trigger] fs.after(action).has(q) && fs.after(action).kind(q)
                == fs.kind(q),
{
    if fs.accepts(action) {
        match action {
            ActionV::CopyFile(from, to) => {
                lemma_stored(fs, to, fs.node(from).unwrap());
            },
            ActionV::CreateDir(path) => {
                lemma_stored(fs, path, NodeV::Directory);
            },
            _ => {},
        }
    }
}

/// What holds of a tree while a copy runs: it is well formed, no removal is
/// pending, and every entry of `before` is still there, with its kind.
pub open spec fn copy_keeps(before: FsV, t: RunV) -> bool {
    &&& t.fs.wf()
    &&& t.engine.mode == Mode::Copy
    &&& t.engine.phase != Phase::Removing
    &&& t.engine.phase != Phase::RemovingDir
    &&& forall|q: PathV| before.has(q) ==> #[trigger] t.fs.has(q) && t.fs.kind(q) == before.kind(q)
}

proof fn lemma_copy_keeps_step(before: FsV, t: RunV, answers: Seq<Seq<char>>)
    requires
        copy_keeps(before, t),
    ensures
        copy_keeps(before, t.next(answers)),
{
    let action = t.engine.pending();
    let u = t.next(answers);
    match action {
        ActionV::Finish(_) => {},
        ActionV::Ask(_) => {
            if t.asked < answers.len() {
                lemma_copy_never_removes(t.engine, EventV::Answer(answers[t.asked as int]));
            }
        },
        _ => {
            lemma_after_wf(t.fs, action);
            lemma_after_keeps_entries(t.fs, action);
            lemma_copy_never_removes(t.engine, t.fs.answer(action));
            assert forall|q: PathV| before.has(q) implies #[trigger] u.fs.has(q) && u.fs.kind(q)
                == before.kind(q) by {
                assert(t.fs.has(q));
            }
        },
    }
}

/// Copying never removes anything: whatever stood in the tree before a
/// copy stands there afterwards, a file as a file and a directory as a
/// directory. This holds at every moment of the transfer, and whether it
/// succeeds or not.
pub proof fn law_copy_never_removes(
    fs: FsV,
    request: TransferRequest,
    answers: Seq<Seq<char>>,
    steps: nat,
)
    requires
        fs.wf(),
        request.mode == Mode::Copy,
    ensures
        forall|q: PathV|
            fs.has(q) ==> #[trigger] begin(fs, request).run(answers, steps).fs.has(q) && begin(
                fs,
                request,
            ).run(answers, steps).fs.kind(q) == fs.kind(q),
        !(begin(fs, request).run(answers, steps).engine.pending() is RemoveFile),
        !(begin(fs, request).run(answers, steps).engine.pending() is RemoveDir),
{
    let inv = |t: RunV| copy_keeps(fs, t);
    assert forall|t: RunV| inv(t) implies inv(#[trigger] t.next(answers)) by {
        lemma_copy_keeps_step(fs, t, answers);
    }
    lemma_run_keeps(inv, begin(fs, request), answers, steps);
}

/// A copy rolls nothing back: whatever stands in the tree at one moment of
/// the copy stands there at every later moment, a file as a file and a
/// directory as a directory. What was transferred before an error stays
/// transferred.
pub proof fn law_copy_keeps_progress(
    fs: FsV,
    request: TransferRequest,
    answers: Seq<Seq<char>>,
    earlier: nat,
    later: nat,
)
    requires
        fs.wf(),
        request.mode == Mode::Copy,
        earlier <= later,
    ensures
        forall|q: PathV|
            begin(fs, request).run(answers, earlier).fs.has(q) ==> #[trigger] begin(
                fs,
                request,
            ).run(answers, later).fs.has(q) && begin(fs, request).run(answers, later).fs.kind(q)
                == begin(fs, request).run(answers, earlier).fs.kind(q),
{
    let s0 = begin(fs, request);
    let from_start = |t: RunV| copy_keeps(fs, t);
    assert forall|t: RunV| from_start(t) implies from_start(#[trigger] t.next(answers)) by {
        lemma_copy_keeps_step(fs, t, answers);
    }
    lemma_run_keeps(from_start, s0, answers, earlier);
    let mid = s0.run(answers, earlier);
    assert(copy_keeps(mid.fs, mid));
    let from_mid = |t: RunV| copy_keeps(mid.fs, t);
    assert forall|t: RunV| from_mid(t) implies from_mid(#[trigger] t.next(answers)) by {
        lemma_copy_keeps_step(mid.fs, t, answers);
    }
    lemma_run_keeps(from_mid, mid, answers, (later - earlier) as nat);
    lemma_run_split(s0, answers, earlier, (later - earlier) as nat);
}

/// The names that are taken in the directory `dir`.
pub open spec fn names_in(fs: FsV, dir: PathV) -> Set<Seq<char>> {
    Set::new(|name: Seq<char>| fs.has(dir.child(name)))
}

/// The last number that a search from `counter` tries.
pub open spec fn last_tried(counter: nat, bound: nat) -> nat {
    if bound > counter {
        bound
    } else {
        counter
    }
}

/// While the engine looks for a free numbered name it probes one candidate
/// per step and leaves the tree alone. It settles on the first free one, or
/// gives up after the candidate that carries the bound.
proof fn lemma_rename_search(s: RunV, answers: Seq<Seq<char>>)
    requires
        s.engine.phase == Phase::Renaming,
    ensures
        match first_free(
            names_in(s.fs, s.engine.into),
            s.engine.name,
            s.engine.counter,
            s.engine.bound,
        ) {
            Some(n) => n >= s.engine.counter && s.run(answers, (n - s.engine.counter + 1) as nat)
                == (RunV {
                engine: EngineV {
                    counter: n,
                    target: s.engine.into.child(numbered(s.engine.name, n)),
                    phase: Phase::Copying,
                    ..s.engine
                },
                ..s
            }),
            None => s.run(
                answers,
                (last_tried(s.engine.counter, s.engine.bound) - s.engine.counter + 1) as nat,
            ) == (RunV {
                engine: (EngineV {
                    counter: last_tried(s.engine.counter, s.engine.bound),
                    ..s.engine
                }).finish(Err(ErrorV::BoundExceeded(s.engine.target))),
                ..s
            }),
        },
    decreases s.engine.bound - s.engine.counter,
{
    let e = s.engine;
    let candidate = e.into.child(numbered(e.name, e.counter));
    let taken = names_in(s.fs, e.into);
    assert(e.pending() == ActionV::Probe(candidate));
    assert(s.fs.answer(ActionV::Probe(candidate)) == EventV::Kind(s.fs.kind(candidate)));
    let t = s.next(answers);
    assert(t.fs == s.fs);
    assert(taken.contains(numbered(e.name, e.counter)) == s.fs.has(candidate));
    lemma_run_one(s, answers);
    if s.fs.has(candidate) && e.counter < e.bound {
        assert(t.engine == EngineV { counter: e.counter + 1, ..e });
        lemma_rename_search(t, answers);
        match first_free(taken, e.name, e.counter, e.bound) {
            Some(n) => {
                lemma_run_split(s, answers, 1, (n - t.engine.counter + 1) as nat);
            },
            None => {
                lemma_run_split(
                    s,
                    answers,
                    1,
                    (last_tried(t.engine.counter, e.bound) - t.engine.counter + 1) as nat,
                );
            },
        }
    }
}

/// From the moment the engine copies a top-level file to a name under which
/// a file can be put, the transfer succeeds with a count of one: the bytes
/// stand under that name, and when moving the source is gone.
proof fn lemma_top_file_copied(s: RunV, answers: Seq<Seq<char>>)
    requires
        s.fs.wf(),
        s.engine.phase == Phase::Copying,
        s.engine.stack.len() == 0,
        s.engine.count == 0,
        s.fs.kind(s.engine.source) == NodeKind::File,
        s.fs.takes_file(s.engine.target),
        s.engine.source != s.engine.target,
    ensures
        s.run(answers, 2).result() == Some(Ok::<nat, ErrorV>(1)),
        s.run(answers, 2).fs == if s.engine.mode == Mode::Move {
            s.fs.stored(s.engine.target, s.fs.node(s.engine.source).unwrap()).removed(
                s.engine.source,
            )
        } else {
            s.fs.stored(s.engine.target, s.fs.node(s.engine.source).unwrap())
        },
{
    let e = s.engine;
    let copied = s.fs.stored(e.target, s.fs.node(e.source).unwrap());
    assert(e.pending() == ActionV::CopyFile(e.source, e.target));
    assert(s.fs.accepts(ActionV::CopyFile(e.source, e.target)));
    let t = s.next(answers);
    assert(t.fs == copied);
    let u = t.next(answers);
    lemma_run_two(s, answers);
    lemma_stored(s.fs, e.target, s.fs.node(e.source).unwrap());
    if e.mode == Mode::Move {
        assert(t.engine.phase == Phase::Removing);
        assert(t.engine.pending() == ActionV::RemoveFile(e.source));
        assert(copied.node(e.source) == s.fs.node(e.source));
        assert(copied.accepts(ActionV::RemoveFile(e.source)));
        assert(u.engine.phase == Phase::Finished);
    } else {
        assert(t.engine.phase == Phase::Finished);
    }
}

/// Moving a file whose name is free in the destination directory puts its
/// bytes under that name, removes the source, leaves everything else as it
/// was, and counts one file, whatever the flags say.
pub proof fn law_move_file_to_free_name(
    fs: FsV,
    request: TransferRequest,
    answers: Seq<Seq<char>>,
    steps: nat,
)
    requires
        fs.wf(),
        request.mode == Mode::Move,
        fs.kind(request.source@) == NodeKind::File,
        request.source@.has_name(),
        fs.kind(request.destination@) == NodeKind::Directory,
        fs.kind(top_target(request)) == NodeKind::Missing,
        steps >= 5,
    ensures
        begin(fs, request).run(answers, steps).result() == Some(Ok::<nat, ErrorV>(1)),
        begin(fs, request).run(answers, steps).fs == fs.stored(
            top_target(request),
            fs.node(request.source@).unwrap(),
        ).removed(request.source@),
        begin(fs, request).run(answers, steps).fs.node(request.source@) is None,
        begin(fs, request).run(answers, steps).fs.node(top_target(request)) == fs.node(
            request.source@,
        ),
        forall|q: PathV|
            q != top_target(request) && q != request.source@ ==> begin(fs, request).run(
                answers,
                steps,
            ).fs.node(q) == fs.node(q),
{
    let source = request.source@;
    let target = top_target(request);
    let node = fs.node(source).unwrap();
    lemma_opening(fs, request, answers);
    let s0 = begin(fs, request);
    let s2 = s0.run(answers, 2);
    assert(s2.engine.phase == Phase::Collide);
    let s3 = s2.next(answers);
    assert(s2.engine.pending() == ActionV::Probe(target));
    assert(fs.answer(ActionV::Probe(target)) == EventV::Kind(NodeKind::Missing));
    assert(s3.engine.phase == Phase::Copying);
    assert(s3.fs == fs);
    lemma_run_one(s2, answers);
    lemma_run_split(s0, answers, 2, 1);
    assert(target.parts.len() > 0);
    assert(target.parts.drop_last() =~= request.destination@.parts);
    assert(target.parent() == request.destination@);
    lemma_top_file_copied(s3, answers);
    let s5 = s3.run(answers, 2);
    lemma_run_split(s0, answers, 3, 2);
    lemma_run_split(s0, answers, 5, (steps - 5) as nat);
    lemma_run_stays(s5, answers, (steps - 5) as nat);
    lemma_stored(fs, target, node);
    lemma_removed(fs.stored(target, node), source);
}

/// With automatic renaming, a file whose destination name is taken is
/// written under the first free numbered name; the file that holds the
/// destination name is not touched.
pub proof fn law_rename_takes_first_free(
    fs: FsV,
    request: TransferRequest,
    answers: Seq<Seq<char>>,
    steps: nat,
    n: nat,
)
    requires
        fs.wf(),
        request.flags.auto_yes,
        !request.flags.auto_no,
        request.flags.auto_rename,
        fs.kind(request.source@) == NodeKind::File,
        request.source@.has_name(),
        fs.kind(request.destination@) == NodeKind::Directory,
        fs.kind(top_target(request)) != NodeKind::Missing,
        request.source@ != top_target(request),
        first_free(
            names_in(fs, request.destination@),
            request.source@.name(),
            FIRST_NUMBER as nat,
            request.bound as nat,
        ) == Some(n),
        steps >= n + 4,
    ensures
        begin(fs, request).run(answers, steps).result() == Some(Ok::<nat, ErrorV>(1)),
        begin(fs, request).run(answers, steps).fs == if request.mode == Mode::Move {
            fs.stored(
                request.destination@.child(numbered(request.source@.name(), n)),
                fs.node(request.source@).unwrap(),
            ).removed(request.source@)
        } else {
            fs.stored(
                request.destination@.child(numbered(request.source@.name(), n)),
                fs.node(request.source@).unwrap(),
            )
        },
{
    let source = request.source@;
    let dest = request.destination@;
    let target = top_target(request);
    let name = source.name();
    lemma_opening(fs, request, answers);
    let s0 = begin(fs, request);
    let s2 = s0.run(answers, 2);
    assert(s2.engine.phase == Phase::Collide);
    let s3 = s2.next(answers);
    assert(s2.engine.pending() == ActionV::Probe(target));
    assert(fs.answer(ActionV::Probe(target)) == EventV::Kind(fs.kind(target)));
    assert(s3.engine.phase == Phase::Renaming);
    assert(s3.fs == fs);
    lemma_run_one(s2, answers);
    lemma_run_split(s0, answers, 2, 1);
    lemma_rename_search(s3, answers);
    lemma_first_free(names_in(fs, dest), name, FIRST_NUMBER as nat, request.bound as nat);
    let probes = (n - 2 + 1) as nat;
    let s4 = s3.run(answers, probes);
    lemma_run_split(s0, answers, 3, probes);
    let found = dest.child(numbered(name, n));
    assert(!fs.has(found));
    assert(found.parts.drop_last() =~= dest.parts);
    assert(found.parent() == dest);
    lemma_top_file_copied(s4, answers);
    let s5 = s4.run(answers, 2);
    lemma_run_split(s0, answers, 3 + probes, 2);
    assert(3 + probes + 2 == n + 4);
    lemma_run_split(s0, answers, n + 4, (steps - (n + 4)) as nat);
    lemma_run_stays(s5, answers, (steps - (n + 4)) as nat);
}

/// The search for a free name is bounded: where the destination name of a
/// file and every numbered name up to the bound are taken, the transfer
/// ends with `BoundExceeded` and the tree is untouched.
pub proof fn law_rename_gives_up_at_bound(
    fs: FsV,
    request: TransferRequest,
    answers: Seq<Seq<char>>,
    steps: nat,
)
    requires
        fs.wf(),
        request.flags.auto_yes,
        !request.flags.auto_no,
        request.flags.auto_rename,
        fs.kind(request.source@) == NodeKind::File,
        request.source@.has_name(),
        fs.kind(request.destination@) == NodeKind::Directory,
        fs.kind(top_target(request)) != NodeKind::Missing,
        request.source@ != top_target(request),
        forall|k: nat|
            FIRST_NUMBER <= k <= last_tried(FIRST_NUMBER as nat, request.bound as nat) ==> fs.has(
                request.destination@.child(#[trigger] numbered(request.source@.name(), k)),
            ),
        steps >= last_tried(FIRST_NUMBER as nat, request.bound as nat) + 2,
    ensures
        begin(fs, request).run(answers, steps).result() == Some(
            Err::<nat, ErrorV>(ErrorV::BoundExceeded(top_target(request))),
        ),
        begin(fs, request).run(answers, steps).fs == fs,
{
    let source = request.source@;
    let dest = request.destination@;
    let target = top_target(request);
    let name = source.name();
    let bound = request.bound as nat;
    let last = last_tried(FIRST_NUMBER as nat, bound);
    lemma_opening(fs, request, answers);
    let s0 = begin(fs, request);
    let s2 = s0.run(answers, 2);
    assert(s2.engine.phase == Phase::Collide);
    let s3 = s2.next(answers);
    assert(s2.engine.pending() == ActionV::Probe(target));
    assert(fs.answer(ActionV::Probe(target)) == EventV::Kind(fs.kind(target)));
    assert(s3.engine.phase == Phase::Renaming);
    assert(s3.fs == fs);
    lemma_run_one(s2, answers);
    lemma_run_split(s0, answers, 2, 1);
    lemma_rename_search(s3, answers);
    lemma_first_free(names_in(fs, dest), name, FIRST_NUMBER as nat, bound);
    match first_free(names_in(fs, dest), name, FIRST_NUMBER as nat, bound) {
        Some(n) => {
            assert(names_in(fs, dest).contains(numbered(name, n)));
        },
        None => {},
    }
    let probes = (last - 2 + 1) as nat;
    let s4 = s3.run(answers, probes);
    lemma_run_split(s0, answers, 3, probes);
    assert(3 + probes == last + 2);
    lemma_run_split(s0, answers, last + 2, (steps - (last + 2)) as nat);
    lemma_run_stays(s4, answers, (steps - (last + 2)) as nat);
}

} // verus!
