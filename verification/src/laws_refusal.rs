//! What the refusal of collisions guarantees: nothing that exists is ever
//! written over.

use vstd::prelude::*;
use crate::engine::ActionV;
use crate::engine::EngineV;
use crate::engine::EventV;
use crate::engine::FrameV;
use crate::engine::NodeKind;
use crate::engine::Phase;
use crate::engine::TransferRequest;
use crate::laws::lemma_copy_never_removes;
use crate::laws::lemma_run_keeps;
use crate::memfs::lemma_after_wf;
use crate::memfs::lemma_stored;
use crate::memfs::FsV;
use crate::memfs::NodeV;
use crate::path::PathV;
use crate::policy::Mode;
use crate::transfer::begin;
use crate::transfer::lemma_step_counts_one;
use crate::transfer::RunV;

verus! {

/// Moving on to the next element starts no file.
pub proof fn lemma_advance_phase(e: EngineV)
    ensures
        e.advance().phase == Phase::Classify || e.advance().phase == Phase::RemovingDir
            || e.advance().phase == Phase::Finished,
    decreases e.stack.len(),
{
    if e.stack.len() > 0 {
        let top = e.stack.last();
        if top.next >= top.names.len() && e.mode != Mode::Move {
            lemma_advance_phase(EngineV { stack: e.stack.drop_last(), ..e });
        }
    }
}

/// Where collisions are refused the engine neither asks nor renames, and it
/// sets out to copy a file only after having found its destination name
/// free.
proof fn lemma_refusing_engine(e: EngineV, event: EventV)
    requires
        e.flags.auto_no,
        e.phase != Phase::Asking,
        e.phase != Phase::Renaming,
    ensures
        e.step(event).flags.auto_no,
        e.step(event).phase != Phase::Asking,
        e.step(event).phase != Phase::Renaming,
        e.step(event).phase == Phase::Copying ==> e.step(event).target == e.target,
        e.step(event).phase == Phase::Copying ==> (e.phase == Phase::Collide && event
            == EventV::Kind(NodeKind::Missing)) || (e.phase == Phase::Copying && !(event is Done)
            && !(event is Failed)),
{
    lemma_step_counts_one(e, event);
    lemma_advance_phase(e);
    lemma_advance_phase(e.counted());
    match event {
        EventV::Entries(names) => {
            lemma_advance_phase(
                EngineV {
                    stack: e.stack.push(
                        FrameV { source: e.source, target: e.target, names, next: 0 },
                    ),
                    ..e
                },
            );
        },
        _ => {},
    }
}

/// What holds while a transfer that refuses collisions runs in a tree that
/// was `before`: a file is copied only to a name under which nothing
/// stands, and when copying every entry of `before` is still what it was.
pub open spec fn refusing(before: FsV, t: RunV) -> bool {
    let e = t.engine;
    &&& t.fs.wf()
    &&& e.flags.auto_no
    &&& e.phase != Phase::Asking
    &&& e.phase != Phase::Renaming
    &&& (e.phase == Phase::Copying ==> !t.fs.has(e.target))
    &&& (e.mode == Mode::Copy ==> {
        &&& e.phase != Phase::Removing
        &&& e.phase != Phase::RemovingDir
        &&& forall|q: PathV| before.has(q) ==> #[trigger] t.fs.node(q) == before.node(q)
    })
}

proof fn lemma_refusing_step(before: FsV, t: RunV, answers: Seq<Seq<char>>)
    requires
        refusing(before, t),
    ensures
        refusing(before, t.next(answers)),
{
    let e = t.engine;
    let action = e.pending();
    let u = t.next(answers);
    match action {
        ActionV::Finish(_) => {},
        ActionV::Ask(_) => {},
        _ => {
            let event = t.fs.answer(action);
            lemma_after_wf(t.fs, action);
            lemma_refusing_engine(e, event);
            if e.mode == Mode::Copy {
                lemma_copy_never_removes(e, event);
            }
            if t.fs.accepts(action) {
                match action {
                    ActionV::CopyFile(from, to) => {
                        lemma_stored(t.fs, to, t.fs.node(from).unwrap());
                    },
                    ActionV::CreateDir(path) => {
                        lemma_stored(t.fs, path, NodeV::Directory);
                    },
                    _ => {},
                }
            }
            if e.mode == Mode::Copy {
                assert forall|q: PathV| before.has(q) implies #[trigger] u.fs.node(q)
                    == before.node(q) by {
                    assert(t.fs.node(q) == before.node(q));
                }
            }
        },
    }
}

/// Where collisions are refused, no file is ever written over: whenever the
/// engine is about to copy a file, nothing stands under the name that it
/// copies to. When copying (rather than moving), every entry that the tree
/// held before the transfer is still there unchanged at every moment,
/// whether the transfer fails later or not.
pub proof fn law_refusal_never_overwrites(
    fs: FsV,
    request: TransferRequest,
    answers: Seq<Seq<char>>,
    steps: nat,
)
    requires
        fs.wf(),
        request.flags.auto_no,
    ensures
        match begin(fs, request).run(answers, steps).engine.pending() {
            ActionV::CopyFile(_, to) => !begin(fs, request).run(answers, steps).fs.has(to),
            _ => true,
        },
        request.mode == Mode::Copy ==> forall|q: PathV|
            fs.has(q) ==> #[trigger] begin(fs, request).run(answers, steps).fs.node(q) == fs.node(
                q,
            ),
{
    let inv = |t: RunV| refusing(fs, t) && t.engine.mode == request.mode;
    assert forall|t: RunV| inv(t) implies inv(#[trigger] t.next(answers)) by {
        lemma_refusing_step(fs, t, answers);
        match t.engine.pending() {
            ActionV::Finish(_) => {},
            ActionV::Ask(_) => {},
            action => {
                lemma_step_counts_one(t.engine, t.fs.answer(action));
            },
        }
    }
    lemma_run_keeps(inv, begin(fs, request), answers, steps);
}

} // verus!
