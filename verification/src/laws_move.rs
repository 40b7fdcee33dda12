//! What a successful move leaves of its source: nothing.

use vstd::prelude::*;
use crate::engine::ActionV;
use crate::engine::EngineV;
use crate::engine::EventV;
use crate::engine::NodeKind;
use crate::engine::Phase;
use crate::engine::TransferRequest;
use crate::laws::lemma_run_keeps;
use crate::memfs::lemma_after_wf;
use crate::memfs::lemma_parent_is_directory;
use crate::memfs::lemma_removed;
use crate::memfs::FsV;
use crate::path::PathV;
use crate::policy::Mode;
use crate::transfer::begin;
use crate::transfer::lemma_run_unfold;
use crate::transfer::RunV;

verus! {

/// In a tree nothing stands below a path that leads nowhere.
pub proof fn lemma_nothing_below_missing(fs: FsV, above: PathV, path: PathV)
    requires
        fs.wf(),
        !fs.has(above),
        above.is_prefix_of(path),
    ensures
        !fs.has(path),
    decreases path.parts.len(),
{
    if path.parts.len() == above.parts.len() {
        assert(path.parts =~= above.parts);
    } else if fs.has(path) {
        lemma_parent_is_directory(fs, path);
        let parent = path.parent();
        assert(above.parts.is_prefix_of(parent.parts)) by {
            assert(parent.parts.subrange(0, above.parts.len() as int) =~= path.parts.subrange(
                0,
                above.parts.len() as int,
            ));
        }
        lemma_nothing_below_missing(fs, above, parent);
    }
}

/// Whether the engine is handling a file.
pub open spec fn at_file(phase: Phase) -> bool {
    phase == Phase::Collide || phase == Phase::Asking || phase == Phase::Renaming || phase
        == Phase::Copying || phase == Phase::Removing
}

/// Whether the engine is handling a directory.
pub open spec fn at_directory(phase: Phase) -> bool {
    phase == Phase::Mirror || phase == Phase::Creating || phase == Phase::Listing || phase
        == Phase::RemovingDir
}

/// What holds while the move of `source` runs.
///
/// The outermost directory being walked is the source; with no directory
/// being walked the current element is the source; and once the move has
/// succeeded, having handled a directory or transferred a file, the source
/// is gone.
pub open spec fn moving(source: PathV, t: RunV) -> bool {
    let e = t.engine;
    &&& t.fs.wf()
    &&& e.mode == Mode::Move
    &&& e.phase != Phase::CheckSource
    &&& e.top_kind != NodeKind::Missing
    &&& (e.stack.len() > 0 ==> e.stack[0].source == source)
    &&& (e.phase == Phase::Classify ==> e.stack.len() > 0)
    &&& (e.stack.len() == 0 && e.phase != Phase::Finished ==> e.source == source)
    &&& (e.stack.len() == 0 && e.phase != Phase::Finished && e.top_kind != NodeKind::Directory
        ==> e.count == 0)
    &&& (e.stack.len() == 0 && at_file(e.phase) ==> e.top_kind == NodeKind::File)
    &&& (e.stack.len() > 0 || at_directory(e.phase) ==> e.top_kind == NodeKind::Directory)
    &&& (e.phase == Phase::CheckDestination ==> e.stack.len() == 0)
    &&& (e.phase == Phase::Finished ==> match e.outcome {
        Ok(n) => (e.top_kind == NodeKind::Directory || n > 0) ==> !t.fs.has(source),
        Err(_) => true,
    })
}

proof fn lemma_moving_step(source: PathV, t: RunV, answers: Seq<Seq<char>>)
    requires
        moving(source, t),
    ensures
        moving(source, t.next(answers)),
{
    let e = t.engine;
    let action = e.pending();
    match action {
        ActionV::Finish(_) => {},
        ActionV::Ask(_) => {
            if t.asked < answers.len() {
                lemma_moving_engine(source, e, EventV::Answer(answers[t.asked as int]));
            }
        },
        _ => {
            lemma_after_wf(t.fs, action);
            let event = t.fs.answer(action);
            lemma_moving_engine(source, e, event);
            if e.stack.len() == 0 && (e.phase == Phase::Removing || e.phase == Phase::RemovingDir)
                && event is Done {
                assert(t.fs.accepts(action));
                lemma_removed(t.fs, source);
            }
        },
    }
}

/// The part of `moving` that speaks of the engine alone is kept by every
/// event; and the engine finishes with success only after the removal of the
/// source, or without having handled a directory or transferred a file.
proof fn lemma_moving_engine(source: PathV, e: EngineV, event: EventV)
    requires
        e.mode == Mode::Move,
        e.phase != Phase::CheckSource,
        e.phase != Phase::Finished,
        e.top_kind != NodeKind::Missing,
        e.stack.len() > 0 ==> e.stack[0].source == source,
        e.phase == Phase::Classify ==> e.stack.len() > 0,
        e.stack.len() == 0 ==> e.source == source,
        e.stack.len() == 0 && e.top_kind != NodeKind::Directory ==> e.count == 0,
        e.stack.len() == 0 && at_file(e.phase) ==> e.top_kind == NodeKind::File,
        e.stack.len() > 0 || at_directory(e.phase) ==> e.top_kind == NodeKind::Directory,
        e.phase == Phase::CheckDestination ==> e.stack.len() == 0,
    ensures
        ({
            let a = e.step(event);
            &&& a.mode == Mode::Move
            &&& a.phase != Phase::CheckSource
            &&& a.top_kind == e.top_kind
            &&& (a.stack.len() > 0 ==> a.stack[0].source == source)
            &&& (a.phase == Phase::Classify ==> a.stack.len() > 0)
            &&& (a.stack.len() == 0 && a.phase != Phase::Finished ==> a.source == source)
            &&& (a.stack.len() == 0 && a.phase != Phase::Finished && a.top_kind
                != NodeKind::Directory ==> a.count == 0)
            &&& (a.stack.len() == 0 && at_file(a.phase) ==> a.top_kind == NodeKind::File)
            &&& (a.stack.len() > 0 || at_directory(a.phase) ==> a.top_kind
                == NodeKind::Directory)
            &&& (a.phase == Phase::CheckDestination ==> a.stack.len() == 0)
            &&& (a.phase == Phase::Finished ==> match a.outcome {
                Ok(n) => (a.top_kind == NodeKind::Directory || n > 0) ==> {
                    &&& e.stack.len() == 0
                    &&& e.phase == Phase::Removing || e.phase == Phase::RemovingDir
                    &&& event is Done
                },
                Err(_) => true,
            })
        }),
{
    match e.phase {
        Phase::Listing => {
            match event {
                EventV::Entries(names) => {
                    let pushed = EngineV {
                        stack: e.stack.push(
                            crate::engine::FrameV {
                                source: e.source,
                                target: e.target,
                                names,
                                next: 0,
                            },
                        ),
                        ..e
                    };
                    assert(pushed.stack[0].source == source);
                    lemma_move_advance(source, pushed);
                },
                _ => {},
            }
        },
        Phase::CheckDestination => {
            lemma_move_advance(source, e);
        },
        _ => {
            lemma_move_advance(source, e);
            lemma_move_advance(source, e.counted());
        },
    }
}

/// Moving on to the next element keeps the outermost directory in place,
/// unless it was the last one and is now to be removed.
proof fn lemma_move_advance(source: PathV, e: EngineV)
    requires
        e.mode == Mode::Move,
        e.stack.len() > 0 ==> e.stack[0].source == source,
    ensures
        ({
            let a = e.advance();
            &&& a.mode == Mode::Move
            &&& a.top_kind == e.top_kind
            &&& a.count == e.count
            &&& (e.stack.len() == 0 ==> a == e.finish(Ok(e.count)))
            &&& (e.stack.len() > 0 ==> a.phase == Phase::Classify || a.phase == Phase::RemovingDir)
            &&& (a.phase == Phase::Classify ==> a.stack.len() > 0)
            &&& (a.stack.len() > 0 ==> a.stack[0].source == source)
            &&& (a.stack.len() == 0 && a.phase == Phase::RemovingDir ==> a.source == source)
            &&& (e.stack.len() > 0 ==> a.stack.len() + 1 >= e.stack.len())
        }),
{
    if e.stack.len() > 0 {
        let top = e.stack.last();
        let a = e.advance();
        if top.next < top.names.len() {
            assert(a.stack.len() == e.stack.len());
            if e.stack.len() > 1 {
                assert(a.stack[0] == e.stack[0]);
            }
        } else {
            assert(a.stack =~= e.stack.drop_last());
            if a.stack.len() > 0 {
                assert(a.stack[0] == e.stack[0]);
            }
        }
    }
}

/// A move that succeeds removes its source entirely. Where the source was a
/// directory, or a file that was transferred (the count is not zero),
/// nothing stands under the source path afterwards, nor below it.
pub proof fn law_move_removes_source(
    fs: FsV,
    request: TransferRequest,
    answers: Seq<Seq<char>>,
    steps: nat,
    below: PathV,
)
    requires
        fs.wf(),
        request.mode == Mode::Move,
        request.source@.is_prefix_of(below),
    ensures
        match begin(fs, request).run(answers, steps).result() {
            Some(Ok(n)) => fs.kind(request.source@) == NodeKind::Directory || n > 0 ==> !begin(
                fs,
                request,
            ).run(answers, steps).fs.has(below),
            _ => true,
        },
{
    let source = request.source@;
    let s0 = begin(fs, request);
    lemma_run_unfold(s0, answers, steps);
    if steps > 0 {
        let s1 = s0.next(answers);
        assert(s0.engine.pending() == ActionV::Probe(source));
        assert(s1.engine == s0.engine.step(EventV::Kind(fs.kind(source))));
        assert(s1.fs == fs);
        let end = s1.run(answers, (steps - 1) as nat);
        if fs.kind(source) == NodeKind::Missing {
            let inv = |t: RunV| t.engine.phase == Phase::Finished && t.engine.outcome is Err;
            assert forall|t: RunV| inv(t) implies inv(#[trigger] t.next(answers)) by {}
            lemma_run_keeps(inv, s1, answers, (steps - 1) as nat);
        } else {
            assert(s1.engine.top_kind == fs.kind(source));
            let inv = |t: RunV| moving(source, t) && t.engine.top_kind == fs.kind(source);
            assert forall|t: RunV| inv(t) implies inv(#[trigger] t.next(answers)) by {
                lemma_moving_step(source, t, answers);
                if t.engine.phase != Phase::Finished {
                    if t.engine.pending() is Ask {
                        if t.asked < answers.len() {
                            lemma_moving_engine(
                                source,
                                t.engine,
                                EventV::Answer(answers[t.asked as int]),
                            );
                        }
                    } else {
                        lemma_moving_engine(source, t.engine, t.fs.answer(t.engine.pending()));
                    }
                }
            }
            lemma_run_keeps(inv, s1, answers, (steps - 1) as nat);
            if end.engine.phase == Phase::Finished && !end.fs.has(source) {
                lemma_nothing_below_missing(end.fs, source, below);
            }
        }
    }
}

} // verus!
