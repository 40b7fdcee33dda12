//! What a successful move of a directory leaves behind: every file of the
//! source stands under the destination with the same bytes, and the count is
//! the number of files.
//!
//! A move takes the source apart while it walks it, so the proof keeps track
//! of what is still whole. Every path is held at most once: by the current
//! element, or by an entry that a directory being walked has not taken up,
//! or by such a directory itself, which waits to be removed. What is held
//! is as it was before the move.

use vstd::prelude::*;
use crate::engine::ActionV;
use crate::engine::EngineV;
use crate::engine::ErrorV;
use crate::engine::EventV;
use crate::engine::FrameV;
use crate::engine::NodeKind;
use crate::engine::Phase;
use crate::engine::TransferRequest;
use crate::laws::lemma_run_keeps;
use crate::laws::lemma_run_one;
use crate::laws::lemma_run_two;
use crate::laws::top_target;
use crate::laws_mirror::active;
use crate::laws_mirror::frame_ok;
use crate::laws_mirror::frame_pending;
use crate::laws_mirror::frames_ok;
use crate::laws_mirror::is_file_of;
use crate::laws_mirror::job_ok;
use crate::laws_mirror::lemma_mirror_child;
use crate::laws_mirror::lemma_mirror_injective;
use crate::laws_mirror::lemma_mirror_outside;
use crate::laws_mirror::lemma_mirror_root;
use crate::laws_mirror::mirror;
use crate::laws_mirror::pending;
use crate::laws_mirror::stack_pending;
use crate::laws_mirror::stack_remaining;
use crate::laws_mirror::Job;
use crate::memfs::lemma_after_wf;
use crate::memfs::lemma_names_below;
use crate::memfs::lemma_removed;
use crate::memfs::lemma_stored;
use crate::memfs::EntryV;
use crate::memfs::FsV;
use crate::memfs::NodeV;
use crate::path::PathV;
use crate::policy::Mode;
use crate::transfer::begin;
use crate::transfer::lemma_run_split;
use crate::transfer::lemma_run_unfold;
use crate::transfer::RunV;
use crate::tree::count_below;
use crate::tree::files_below;
use crate::tree::hits;
use crate::tree::lemma_above_is_directory;
use crate::tree::lemma_below_child;
use crate::tree::lemma_below_some_child;
use crate::tree::lemma_child_below;
use crate::tree::lemma_count_of_directory;
use crate::tree::lemma_file_counts_one;
use crate::tree::lemma_kind_has;
use crate::tree::lemma_no_hits;
use crate::tree::lemma_one_hit;
use crate::tree::lemma_prefix_chain;

verus! {

/// How many of the entries `names[from..]` of `dir` the path lies below.
pub open spec fn held_below(dir: PathV, names: Seq<Seq<char>>, from: nat, path: PathV) -> nat {
    hits(EntryV { path, node: NodeV::Directory }, dir, names, from, false)
}

/// How often a directory being walked holds the path: as itself, or below
/// an entry that it has not taken up.
pub open spec fn frame_holds(frame: FrameV, path: PathV) -> nat {
    (if frame.source == path {
        1nat
    } else {
        0nat
    }) + held_below(frame.source, frame.names, frame.next, path)
}

/// How often the directories being walked hold the path.
pub open spec fn stack_holds(stack: Seq<FrameV>, path: PathV) -> nat
    decreases stack.len(),
{
    if stack.len() == 0 {
        0
    } else {
        frame_holds(stack.last(), path) + stack_holds(stack.drop_last(), path)
    }
}

/// How often the current element holds the path: with all below it until
/// it has been copied or listed, and alone while it waits to be removed.
pub open spec fn current_holds(e: EngineV, path: PathV) -> nat {
    if active(e.phase) && e.source.is_prefix_of(path) {
        1
    } else if (e.phase == Phase::Removing || e.phase == Phase::RemovingDir) && e.source == path {
        1
    } else {
        0
    }
}

/// How often the path is held.
pub open spec fn holds(e: EngineV, path: PathV) -> nat {
    current_holds(e, path) + stack_holds(e.stack, path)
}

/// The files that are still to be counted.
pub open spec fn uncounted(job: Job, e: EngineV) -> nat {
    (if active(e.phase) || e.phase == Phase::Removing {
        count_below(job.before.entries, e.source, true)
    } else {
        0
    }) + stack_remaining(job, e.stack, true)
}

/// The current element belongs to the source, is written where it belongs,
/// and is of the kind that the phase takes it for.
pub open spec fn element_ok(job: Job, e: EngineV) -> bool {
    &&& job.source.is_prefix_of(e.source)
    &&& (active(e.phase) || e.phase == Phase::Removing ==> {
        &&& e.target == mirror(job.source, job.target, e.source)
        &&& job.before.has(e.source)
    })
    &&& (e.phase == Phase::Collide || e.phase == Phase::Copying || e.phase == Phase::Removing
        ==> job.before.kind(e.source) == NodeKind::File)
    &&& (e.phase == Phase::Mirror || e.phase == Phase::Creating || e.phase == Phase::Listing
        ==> job.before.kind(e.source) == NodeKind::Directory)
}

/// What holds while the move runs without error.
pub open spec fn carrying(job: Job, t: RunV) -> bool {
    let e = t.engine;
    &&& t.fs.wf()
    &&& e.mode == Mode::Move
    &&& e.flags.auto_yes
    &&& !e.flags.auto_rename
    &&& (active(e.phase) || e.phase == Phase::Removing || e.phase == Phase::RemovingDir || e.phase
        == Phase::Finished)
    &&& frames_ok(job, e.stack)
    &&& (e.phase != Phase::Finished ==> element_ok(job, e))
    &&& (forall|q: PathV| #[trigger] holds(e, q) <= 1)
    &&& (forall|q: PathV| holds(e, q) >= 1 ==> #[trigger] t.fs.node(q) == job.before.node(q))
    &&& (forall|q: PathV| #[trigger]
        is_file_of(job, q) ==> pending(e, q) || t.fs.node(mirror(job.source, job.target, q))
            == job.before.node(q))
    &&& e.count + uncounted(job, e) == files_below(job.before.entries, job.source)
    &&& (e.phase == Phase::Finished ==> e.stack.len() == 0 && e.outcome == Ok::<nat, ErrorV>(
        e.count,
    ))
}

/// What holds while the move runs: it has failed, or all is in order.
pub open spec fn moving_on(job: Job, t: RunV) -> bool {
    (t.engine.phase == Phase::Finished && t.engine.outcome is Err) || carrying(job, t)
}

/// A path lies below one entry of a listing at most, and only if it lies
/// below the directory.
pub proof fn lemma_held_once(dir: PathV, names: Seq<Seq<char>>, from: nat, path: PathV)
    requires
        names.no_duplicates(),
    ensures
        held_below(dir, names, from, path) <= 1,
        held_below(dir, names, from, path) >= 1 ==> dir.is_prefix_of(path) && dir != path,
{
    let entry = EntryV { path, node: NodeV::Directory };
    if dir.is_prefix_of(path) && dir != path {
        lemma_below_some_child(dir, path);
        let name = path.parts[dir.parts.len() as int];
        if names.contains(name) {
            let at = choose|i: int| 0 <= i < names.len() && names[i] == name;
            lemma_one_hit(entry, dir, names, from, at, false);
        } else {
            assert forall|i: int| from <= i < names.len() implies !dir.child(
                #[trigger] names[i],
            ).is_prefix_of(path) by {
                if dir.child(names[i]).is_prefix_of(path) {
                    lemma_below_child(dir, names[i], path);
                    assert(names.contains(names[i]));
                }
            }
            lemma_no_hits(entry, dir, names, from, false);
        }
    } else {
        assert forall|i: int| from <= i < names.len() implies !dir.child(
            #[trigger] names[i],
        ).is_prefix_of(path) by {
            if dir.child(names[i]).is_prefix_of(path) {
                lemma_below_child(dir, names[i], path);
            }
        }
        lemma_no_hits(entry, dir, names, from, false);
    }
}

/// What a directory being walked holds lies in the source.
pub proof fn lemma_frame_holds_inside(job: Job, frame: FrameV, path: PathV)
    requires
        frame_ok(job, frame),
        frame_holds(frame, path) >= 1,
    ensures
        job.source.is_prefix_of(path),
{
    if frame.source != path {
        lemma_held_inside(frame.source, frame.names, frame.next, path);
        lemma_prefix_chain(job.source, frame.source, path);
    }
}

/// What lies below an entry of a directory lies below the directory.
pub proof fn lemma_held_inside(dir: PathV, names: Seq<Seq<char>>, from: nat, path: PathV)
    requires
        held_below(dir, names, from, path) >= 1,
    ensures
        dir.is_prefix_of(path),
    decreases names.len() - from,
{
    if from < names.len() {
        if dir.child(names[from as int]).is_prefix_of(path) {
            lemma_below_child(dir, names[from as int], path);
        } else {
            lemma_held_inside(dir, names, from + 1, path);
        }
    }
}

/// What the directories being walked hold lies in the source.
pub proof fn lemma_stack_holds_inside(job: Job, stack: Seq<FrameV>, path: PathV)
    requires
        frames_ok(job, stack),
        stack_holds(stack, path) >= 1,
    ensures
        job.source.is_prefix_of(path),
    decreases stack.len(),
{
    if stack.len() > 0 {
        if frame_holds(stack.last(), path) >= 1 {
            lemma_frame_holds_inside(job, stack.last(), path);
        } else {
            lemma_stack_holds_inside(job, stack.drop_last(), path);
        }
    }
}

/// What is held lies in the source.
pub proof fn lemma_holds_inside(job: Job, e: EngineV, path: PathV)
    requires
        frames_ok(job, e.stack),
        e.phase != Phase::Finished ==> job.source.is_prefix_of(e.source),
        holds(e, path) >= 1,
    ensures
        job.source.is_prefix_of(path),
{
    if current_holds(e, path) >= 1 {
        lemma_prefix_chain(job.source, e.source, path);
    } else {
        lemma_stack_holds_inside(job, e.stack, path);
    }
}

/// Moving on, when moving, takes the next entry of the innermost directory,
/// or sets about removing that directory when it has none left. What the
/// directories held is held as before.
pub proof fn lemma_move_on(job: Job, e: EngineV, path: PathV)
    requires
        e.mode == Mode::Move,
        frames_ok(job, e.stack),
    ensures
        ({
            let a = e.advance();
            &&& a.count == e.count
            &&& a.mode == e.mode
            &&& a.flags == e.flags
            &&& frames_ok(job, a.stack)
            &&& (e.stack.len() == 0 ==> a == e.finish(Ok(e.count)))
            &&& (e.stack.len() > 0 ==> a.phase == Phase::Classify || a.phase == Phase::RemovingDir)
            &&& (a.phase != Phase::Finished ==> element_ok(job, a))
            &&& holds(a, path) == stack_holds(e.stack, path)
            &&& pending(a, path) == stack_pending(e.stack, path)
            &&& uncounted(job, a) == stack_remaining(job, e.stack, true)
        }),
{
    if e.stack.len() > 0 {
        let top = e.stack.last();
        let rest = e.stack.drop_last();
        let a = e.advance();
        if top.next < top.names.len() {
            let name = top.names[top.next as int];
            let taken = FrameV { next: top.next + 1, ..top };
            assert(a.stack.last() == taken);
            assert(a.stack.drop_last() =~= rest);
            assert(frame_ok(job, taken));
            lemma_child_below(top.source, name);
            lemma_prefix_chain(job.source, top.source, top.source.child(name));
            lemma_mirror_child(job.source, job.target, top.source, name);
            if top.source == path && top.source.child(name).is_prefix_of(path) {
                lemma_below_child(top.source, name, path);
            }
            if frame_pending(top, path) {
                let i = choose|i: int|
                    top.next <= i < top.names.len() && top.source.child(
                        #[trigger] top.names[i],
                    ).is_prefix_of(path);
                if i != top.next {
                    assert(taken.next <= i < taken.names.len() && taken.source.child(
                        taken.names[i],
                    ).is_prefix_of(path));
                }
            }
            if frame_pending(taken, path) {
                let i = choose|i: int|
                    taken.next <= i < taken.names.len() && taken.source.child(
                        #[trigger] taken.names[i],
                    ).is_prefix_of(path);
                assert(top.next <= i < top.names.len() && top.source.child(
                    top.names[i],
                ).is_prefix_of(path));
            }
            if a.source.is_prefix_of(path) {
                assert(top.source.child(top.names[top.next as int]).is_prefix_of(path));
            }
        } else {
            assert(a.stack =~= rest);
            assert(!frame_pending(top, path));
        }
    }
}

/// A probe changes nothing but what the engine takes the element for.
proof fn lemma_carry_probe(job: Job, t: RunV, answers: Seq<Seq<char>>)
    requires
        job_ok(job),
        carrying(job, t),
        t.engine.phase == Phase::Classify || t.engine.phase == Phase::Collide || t.engine.phase
            == Phase::Mirror,
    ensures
        moving_on(job, t.next(answers)),
{
    let e = t.engine;
    let u = t.next(answers);
    let a = u.engine;
    let probed = if e.phase == Phase::Classify {
        e.source
    } else {
        e.target
    };
    assert(e.pending() == ActionV::Probe(probed));
    assert(t.fs.answer(ActionV::Probe(probed)) == EventV::Kind(t.fs.kind(probed)));
    assert(u.fs == t.fs);
    assert(a == e.step(EventV::Kind(t.fs.kind(probed))));
    if e.phase == Phase::Classify {
        assert(holds(e, e.source) >= 1);
        assert(t.fs.node(e.source) == job.before.node(e.source));
        lemma_kind_has(job.before, e.source);
        lemma_kind_has(t.fs, e.source);
        assert(t.fs.kind(e.source) == job.before.kind(e.source));
    }
    if !(a.phase == Phase::Finished) {
        assert(a == EngineV { phase: a.phase, ..e });
        assert(active(a.phase));
        assert forall|q: PathV| #[trigger] holds(a, q) <= 1 by {
            assert(holds(a, q) == holds(e, q));
        }
        assert forall|q: PathV| holds(a, q) >= 1 implies #[trigger] u.fs.node(q)
            == job.before.node(q) by {
            assert(holds(a, q) == holds(e, q));
        }
        assert forall|q: PathV| #[trigger] is_file_of(job, q) implies pending(a, q) || u.fs.node(
            mirror(job.source, job.target, q),
        ) == job.before.node(q) by {
            assert(pending(a, q) == pending(e, q));
        }
    }
}

/// A copied file is mirrored; it waits to be removed.
proof fn lemma_carry_copying(job: Job, t: RunV, answers: Seq<Seq<char>>)
    requires
        job_ok(job),
        carrying(job, t),
        t.engine.phase == Phase::Copying,
    ensures
        moving_on(job, t.next(answers)),
{
    let e = t.engine;
    let u = t.next(answers);
    let a = u.engine;
    let action = ActionV::CopyFile(e.source, e.target);
    assert(e.pending() == action);
    if t.fs.accepts(action) {
        let node = t.fs.node(e.source).unwrap();
        assert(u.fs == t.fs.stored(e.target, node));
        assert(a == EngineV { phase: Phase::Removing, ..e });
        lemma_after_wf(t.fs, action);
        lemma_stored(t.fs, e.target, node);
        lemma_mirror_outside(job.source, job.target, e.source);
        assert(holds(e, e.source) >= 1);
        assert(t.fs.node(e.source) == job.before.node(e.source));
        assert forall|q: PathV| #[trigger] holds(a, q) <= 1 by {
            assert(holds(e, q) <= 1);
        }
        assert forall|q: PathV| holds(a, q) >= 1 implies #[trigger] u.fs.node(q)
            == job.before.node(q) by {
            assert(holds(e, q) >= 1);
            assert(t.fs.node(q) == job.before.node(q));
            lemma_holds_inside(job, e, q);
            assert(q != e.target);
        }
        assert forall|q: PathV| #[trigger] is_file_of(job, q) implies pending(a, q) || u.fs.node(
            mirror(job.source, job.target, q),
        ) == job.before.node(q) by {
            lemma_kind_has(job.before, q);
            if q == e.source {
            } else if e.source.is_prefix_of(q) {
                lemma_above_is_directory(job.before, e.source, q);
            } else if stack_pending(e.stack, q) {
            } else {
                assert(!pending(e, q));
                if mirror(job.source, job.target, q) == e.target {
                    lemma_mirror_injective(job.source, job.target, q, e.source);
                }
            }
        }
    }
}

/// A file that is removed has been moved: it is counted.
proof fn lemma_carry_removing(job: Job, t: RunV, answers: Seq<Seq<char>>)
    requires
        job_ok(job),
        carrying(job, t),
        t.engine.phase == Phase::Removing || t.engine.phase == Phase::RemovingDir,
    ensures
        moving_on(job, t.next(answers)),
{
    let e = t.engine;
    let u = t.next(answers);
    let a = u.engine;
    let action = if e.phase == Phase::Removing {
        ActionV::RemoveFile(e.source)
    } else {
        ActionV::RemoveDir(e.source)
    };
    assert(e.pending() == action);
    if t.fs.accepts(action) {
        assert(u.fs == t.fs.removed(e.source));
        let done = if e.phase == Phase::Removing {
            e.counted()
        } else {
            e
        };
        assert(a == done.advance());
        lemma_after_wf(t.fs, action);
        lemma_removed(t.fs, e.source);
        assert(holds(e, e.source) <= 1);
        assert(stack_holds(e.stack, e.source) == 0);
        assert forall|q: PathV| #[trigger] holds(a, q) <= 1 by {
            lemma_move_on(job, done, q);
            assert(holds(e, q) <= 1);
        }
        assert forall|q: PathV| holds(a, q) >= 1 implies #[trigger] u.fs.node(q)
            == job.before.node(q) by {
            lemma_move_on(job, done, q);
            assert(holds(e, q) >= 1);
            assert(t.fs.node(q) == job.before.node(q));
            assert(q != e.source);
        }
        assert forall|q: PathV| #[trigger] is_file_of(job, q) implies pending(a, q) || u.fs.node(
            mirror(job.source, job.target, q),
        ) == job.before.node(q) by {
            lemma_move_on(job, done, q);
            lemma_mirror_outside(job.source, job.target, q);
            assert(mirror(job.source, job.target, q) != e.source);
        }
        lemma_move_on(job, done, e.source);
        if e.phase == Phase::Removing {
            lemma_file_counts_one(job.before, e.source, true);
        }
    }
}

/// A mirror that is created disturbs nothing.
proof fn lemma_carry_creating(job: Job, t: RunV, answers: Seq<Seq<char>>)
    requires
        job_ok(job),
        carrying(job, t),
        t.engine.phase == Phase::Creating,
    ensures
        moving_on(job, t.next(answers)),
{
    let e = t.engine;
    let u = t.next(answers);
    let a = u.engine;
    let action = ActionV::CreateDir(e.target);
    assert(e.pending() == action);
    if t.fs.accepts(action) {
        assert(u.fs == t.fs.stored(e.target, NodeV::Directory));
        assert(a == EngineV { phase: Phase::Listing, ..e });
        lemma_after_wf(t.fs, action);
        lemma_stored(t.fs, e.target, NodeV::Directory);
        lemma_mirror_outside(job.source, job.target, e.source);
        lemma_kind_has(t.fs, e.target);
        assert forall|q: PathV| #[trigger] holds(a, q) <= 1 by {
            assert(holds(a, q) == holds(e, q));
        }
        assert forall|q: PathV| holds(a, q) >= 1 implies #[trigger] u.fs.node(q)
            == job.before.node(q) by {
            assert(holds(a, q) == holds(e, q));
            assert(t.fs.node(q) == job.before.node(q));
            lemma_holds_inside(job, e, q);
            assert(q != e.target);
        }
        assert forall|q: PathV| #[trigger] is_file_of(job, q) implies pending(a, q) || u.fs.node(
            mirror(job.source, job.target, q),
        ) == job.before.node(q) by {
            assert(pending(a, q) == pending(e, q));
            lemma_kind_has(job.before, q);
        }
    }
}

/// A directory that is listed hands what it held over to its entries, and
/// keeps itself.
proof fn lemma_carry_listing(job: Job, t: RunV, answers: Seq<Seq<char>>)
    requires
        job_ok(job),
        carrying(job, t),
        t.engine.phase == Phase::Listing,
    ensures
        moving_on(job, t.next(answers)),
{
    let e = t.engine;
    let u = t.next(answers);
    let a = u.engine;
    let action = ActionV::ListDir(e.source);
    assert(e.pending() == action);
    assert(holds(e, e.source) >= 1);
    assert(t.fs.node(e.source) == job.before.node(e.source));
    assert(t.fs.accepts(action));
    let names = t.fs.children(e.source);
    let frame = FrameV { source: e.source, target: e.target, names, next: 0 };
    let pushed = EngineV { stack: e.stack.push(frame), ..e };
    assert(u.fs == t.fs);
    assert(a == pushed.advance());
    lemma_names_below(t.fs, e.source);
    assert forall|name: Seq<char>| #[trigger]
        names.contains(name) <==> job.before.has(e.source.child(name)) by {
        let child = e.source.child(name);
        lemma_child_below(e.source, name);
        assert(holds(e, child) >= 1);
        assert(t.fs.node(child) == job.before.node(child));
        lemma_kind_has(t.fs, child);
        lemma_kind_has(job.before, child);
    }
    assert(frame_ok(job, frame)) by {
        assert forall|i: int| 0 <= i < frame.names.len() implies job.before.has(
            frame.source.child(#[trigger] frame.names[i]),
        ) by {
            assert(names.contains(names[i]));
        }
    }
    assert(pushed.stack.last() == frame);
    assert(pushed.stack.drop_last() =~= e.stack);
    lemma_count_of_directory(job.before, e.source, names, true);
    assert forall|q: PathV| #[trigger] holds(a, q) <= 1 by {
        lemma_move_on(job, pushed, q);
        lemma_held_once(e.source, names, 0, q);
        assert(holds(e, q) <= 1);
    }
    assert forall|q: PathV| holds(a, q) >= 1 implies #[trigger] u.fs.node(q) == job.before.node(
        q,
    ) by {
        lemma_move_on(job, pushed, q);
        lemma_held_once(e.source, names, 0, q);
        assert(holds(e, q) >= 1);
    }
    assert forall|q: PathV| #[trigger] is_file_of(job, q) implies pending(a, q) || u.fs.node(
        mirror(job.source, job.target, q),
    ) == job.before.node(q) by {
        lemma_move_on(job, pushed, q);
        lemma_kind_has(job.before, q);
        if e.source.is_prefix_of(q) {
            lemma_below_some_child(e.source, q);
            let name = q.parts[e.source.parts.len() as int];
            let child = e.source.child(name);
            if child != q {
                lemma_above_is_directory(job.before, child, q);
            }
            lemma_kind_has(job.before, child);
            assert(names.contains(name));
            let i = choose|i: int| 0 <= i < names.len() && names[i] == name;
            assert(frame.next <= i < frame.names.len() && frame.source.child(
                frame.names[i],
            ).is_prefix_of(q));
            assert(frame_pending(frame, q));
        } else if stack_pending(e.stack, q) {
        }
    }
    lemma_move_on(job, pushed, e.source);
}

/// Every action keeps the move in order, unless it fails.
pub proof fn lemma_carrying_step(job: Job, t: RunV, answers: Seq<Seq<char>>)
    requires
        job_ok(job),
        moving_on(job, t),
    ensures
        moving_on(job, t.next(answers)),
{
    let e = t.engine;
    if e.phase == Phase::Finished {
    } else if e.phase == Phase::Copying {
        lemma_carry_copying(job, t, answers);
    } else if e.phase == Phase::Removing || e.phase == Phase::RemovingDir {
        lemma_carry_removing(job, t, answers);
    } else if e.phase == Phase::Creating {
        lemma_carry_creating(job, t, answers);
    } else if e.phase == Phase::Listing {
        lemma_carry_listing(job, t, answers);
    } else {
        lemma_carry_probe(job, t, answers);
    }
}

/// Moving a directory with automatic replacement carries it over.
///
/// The source is a directory, the destination another, and neither of the
/// source and the path that it is written to lies under the other. If the
/// move succeeds, its count is the number of files at or below the source,
/// and each of them stands under the destination, at the same place
/// relative to it, with the same bytes.
pub proof fn law_move_carries_tree(
    fs: FsV,
    request: TransferRequest,
    answers: Seq<Seq<char>>,
    steps: nat,
)
    requires
        fs.wf(),
        request.mode == Mode::Move,
        request.flags.auto_yes,
        !request.flags.auto_rename,
        fs.kind(request.source@) == NodeKind::Directory,
        request.source@.has_name(),
        fs.kind(request.destination@) == NodeKind::Directory,
        !request.source@.is_prefix_of(top_target(request)),
        !top_target(request).is_prefix_of(request.source@),
    ensures
        match begin(fs, request).run(answers, steps).result() {
            Some(Ok(n)) => {
                &&& n == files_below(fs.entries, request.source@)
                &&& forall|q: PathV|
                    request.source@.is_prefix_of(q) && #[trigger] fs.kind(q) == NodeKind::File
                        ==> begin(fs, request).run(answers, steps).fs.node(
                        mirror(request.source@, top_target(request), q),
                    ) == fs.node(q)
            },
            _ => true,
        },
{
    let source = request.source@;
    let job = Job { before: fs, source, target: top_target(request) };
    let s0 = begin(fs, request);
    lemma_run_unfold(s0, answers, steps);
    if steps == 0 {
    } else if steps == 1 {
        lemma_run_one(s0, answers);
        assert(s0.engine.pending() == ActionV::Probe(source));
    } else {
        lemma_run_two(s0, answers);
        lemma_run_split(s0, answers, 2, (steps - 2) as nat);
        let s1 = s0.next(answers);
        assert(s0.engine.pending() == ActionV::Probe(source));
        assert(fs.answer(ActionV::Probe(source)) == EventV::Kind(fs.kind(source)));
        assert(s1.fs == fs);
        assert(s1.engine.pending() == ActionV::Probe(request.destination@));
        let s2 = s1.next(answers);
        assert(s2.fs == fs);
        assert(s2.engine == EngineV {
            top_kind: NodeKind::Directory,
            phase: Phase::Mirror,
            ..s0.engine
        });
        lemma_mirror_root(source, job.target);
        lemma_kind_has(fs, source);
        assert(s2.engine.stack.len() == 0);
        assert(carrying(job, s2)) by {
            assert(frames_ok(job, s2.engine.stack));
            assert(element_ok(job, s2.engine));
            assert(stack_remaining(job, s2.engine.stack, true) == 0);
            assert forall|q: PathV| #[trigger] holds(s2.engine, q) <= 1 by {
                assert(stack_holds(s2.engine.stack, q) == 0);
            }
            assert forall|q: PathV| #[trigger] is_file_of(job, q) implies pending(s2.engine, q)
                || s2.fs.node(mirror(job.source, job.target, q)) == job.before.node(q) by {}
        }
        let inv = |t: RunV| moving_on(job, t);
        assert forall|t: RunV| inv(t) implies inv(#[trigger] t.next(answers)) by {
            lemma_carrying_step(job, t, answers);
        }
        lemma_run_keeps(inv, s2, answers, (steps - 2) as nat);
        let end = s2.run(answers, (steps - 2) as nat);
        if end.engine.phase == Phase::Finished && end.engine.outcome is Ok {
            assert(carrying(job, end));
            assert(stack_remaining(job, end.engine.stack, true) == 0);
            assert forall|q: PathV|
                source.is_prefix_of(q) && #[trigger] fs.kind(q) == NodeKind::File implies end.fs.node(
                mirror(source, job.target, q),
            ) == fs.node(q) by {
                assert(is_file_of(job, q));
                assert(!stack_pending(end.engine.stack, q));
            }
        }
    }
}

} // verus!
