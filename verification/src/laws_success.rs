//! When the copy of a directory is bound to succeed, and how many actions
//! it takes at most.
//!
//! The copy cannot fail where nothing in the destination is of the wrong
//! kind: no directory stands where a file of the source is to be written,
//! and no file where a directory is to be mirrored. Each entry of the source
//! costs at most four actions.

use vstd::prelude::*;
use crate::engine::ActionV;
use crate::engine::EngineV;
use crate::engine::ErrorV;
use crate::engine::EventV;
use crate::engine::FrameV;
use crate::engine::NodeKind;
use crate::engine::Phase;
use crate::engine::TransferRequest;
use crate::laws::lemma_run_two;
use crate::laws::top_target;
use crate::laws_mirror::active;
use crate::laws_mirror::current_ok;
use crate::laws_mirror::frames_ok;
use crate::laws_mirror::good;
use crate::laws_mirror::is_file_of;
use crate::laws_mirror::job_ok;
use crate::laws_mirror::lemma_advance;
use crate::laws_mirror::lemma_mirror_injective;
use crate::laws_mirror::lemma_mirror_outside;
use crate::laws_mirror::lemma_mirror_root;
use crate::laws_mirror::lemma_step_copying;
use crate::laws_mirror::lemma_step_creating;
use crate::laws_mirror::lemma_step_listing;
use crate::laws_mirror::lemma_step_probe;
use crate::laws_mirror::mirror;
use crate::laws_mirror::pending;
use crate::laws_mirror::remaining;
use crate::laws_mirror::stack_remaining;
use crate::laws_mirror::Job;
use crate::memfs::lemma_names_below;
use crate::memfs::lemma_stored;
use crate::memfs::FsV;
use crate::memfs::NodeV;
use crate::path::PathV;
use crate::policy::Mode;
use crate::transfer::begin;
use crate::transfer::lemma_run_split;
use crate::transfer::lemma_run_stays;
use crate::transfer::lemma_run_unfold;
use crate::transfer::RunV;
use crate::tree::count_below;
use crate::tree::files_below;
use crate::tree::lemma_child_below;
use crate::tree::lemma_count_of_directory;
use crate::tree::lemma_file_counts_one;
use crate::tree::lemma_index_of;
use crate::tree::lemma_kind_has;
use crate::tree::lemma_prefix_chain;

verus! {

/// Whether what stands in `fs` where `path` is written to lets `path` be
/// written: no directory in the place of a file, no file in the place of a
/// directory.
pub open spec fn kinds_fit(job: Job, fs: FsV, path: PathV) -> bool {
    let place = mirror(job.source, job.target, path);
    &&& (job.before.kind(path) == NodeKind::File ==> fs.kind(place) != NodeKind::Directory)
    &&& (job.before.kind(path) == NodeKind::Directory ==> fs.kind(place) != NodeKind::File)
}

/// Whether every entry of the source can be written where it belongs in
/// `fs`.
pub open spec fn fits(job: Job, fs: FsV) -> bool {
    forall|q: PathV|
        job.source.is_prefix_of(q) && #[trigger] job.before.has(q) ==> kinds_fit(job, fs, q)
}

/// The mirror of every directory being walked is a directory.
pub open spec fn frames_ready(fs: FsV, stack: Seq<FrameV>) -> bool
    decreases stack.len(),
{
    stack.len() == 0 || (fs.kind(stack.last().target) == NodeKind::Directory && frames_ready(
        fs,
        stack.drop_last(),
    ))
}

/// What holds while a copy runs that cannot fail.
pub open spec fn ready(job: Job, t: RunV) -> bool {
    let e = t.engine;
    &&& good(job, t)
    &&& !e.flags.auto_no
    &&& fits(job, t.fs)
    &&& frames_ready(t.fs, e.stack)
    &&& (active(e.phase) ==> e.target.parts.len() > 0 && t.fs.kind(e.target.parent())
        == NodeKind::Directory)
    &&& (e.phase == Phase::Creating ==> t.fs.kind(e.target) == NodeKind::Missing)
    &&& (e.phase == Phase::Listing ==> t.fs.kind(e.target) == NodeKind::Directory)
}

/// How far the engine has got with the current element.
pub open spec fn progress(phase: Phase) -> int {
    match phase {
        Phase::Collide => 1,
        Phase::Copying => 2,
        Phase::Mirror => 1,
        Phase::Creating => 2,
        Phase::Listing => 3,
        _ => 0,
    }
}

/// A bound on the actions that the copy still takes: four for each entry
/// that is still to come, less what has been done for the current one.
pub open spec fn effort(job: Job, e: EngineV) -> int {
    4 * remaining(job, e, false) - progress(e.phase)
}

/// An entry of the tree counts for one at least.
pub proof fn lemma_entry_counts(fs: FsV, path: PathV, upto: int)
    requires
        fs.has(path),
        0 <= upto <= fs.entries.len(),
    ensures
        upto > fs.index(path) ==> count_below(fs.entries.take(upto), path, false) >= 1,
    decreases upto,
{
    lemma_index_of(fs, path);
    if upto > 0 {
        let entries = fs.entries.take(upto);
        assert(entries.drop_last() =~= fs.entries.take(upto - 1));
        assert(entries.last() == fs.entries[upto - 1]);
        lemma_entry_counts(fs, path, upto - 1);
        if upto - 1 == fs.index(path) {
            assert(path.parts.subrange(0, path.parts.len() as int) =~= path.parts);
        }
    }
}

/// While an element is being handled there is something left to do.
pub proof fn lemma_effort_positive(job: Job, e: EngineV)
    requires
        active(e.phase),
        job.before.has(e.source),
    ensures
        effort(job, e) >= 1,
{
    lemma_index_of(job.before, e.source);
    lemma_entry_counts(job.before, e.source, job.before.entries.len() as int);
    assert(job.before.entries.take(job.before.entries.len() as int) =~= job.before.entries);
}

/// Mirrors that are directories stay directories when the tree grows.
pub proof fn lemma_frames_stay_ready(fs: FsV, grown: FsV, stack: Seq<FrameV>)
    requires
        frames_ready(fs, stack),
        forall|p: PathV|
            fs.kind(p) == NodeKind::Directory ==> #[trigger] grown.kind(p) == NodeKind::Directory,
    ensures
        frames_ready(grown, stack),
    decreases stack.len(),
{
    if stack.len() > 0 {
        lemma_frames_stay_ready(fs, grown, stack.drop_last());
    }
}

/// Moving on leaves the mirrors of the directories being walked in place,
/// and the next element is written into such a mirror.
pub proof fn lemma_advance_ready(job: Job, fs: FsV, e: EngineV)
    requires
        e.mode == Mode::Copy,
        frames_ready(fs, e.stack),
    ensures
        frames_ready(fs, e.advance().stack),
        e.advance().phase == Phase::Classify ==> e.advance().target.parts.len() > 0 && fs.kind(
            e.advance().target.parent(),
        ) == NodeKind::Directory,
    decreases e.stack.len(),
{
    if e.stack.len() > 0 {
        let top = e.stack.last();
        let rest = e.stack.drop_last();
        if top.next < top.names.len() {
            let a = e.advance();
            let taken = FrameV { next: top.next + 1, ..top };
            assert(a.stack.last() == taken);
            assert(a.stack.drop_last() =~= rest);
            lemma_child_below(top.target, top.names[top.next as int]);
        } else {
            lemma_advance_ready(job, fs, EngineV { stack: rest, ..e });
        }
    }
}

/// A probe brings the copy forward.
proof fn lemma_ready_probe(job: Job, t: RunV, answers: Seq<Seq<char>>)
    requires
        job_ok(job),
        ready(job, t),
        t.engine.phase == Phase::Classify || t.engine.phase == Phase::Collide || t.engine.phase
            == Phase::Mirror,
    ensures
        ready(job, t.next(answers)),
        effort(job, t.next(answers).engine) < effort(job, t.engine),
{
    let e = t.engine;
    let u = t.next(answers);
    let a = u.engine;
    lemma_step_probe(job, t, answers);
    let probed = if e.phase == Phase::Classify {
        e.source
    } else {
        e.target
    };
    assert(e.pending() == ActionV::Probe(probed));
    assert(t.fs.answer(ActionV::Probe(probed)) == EventV::Kind(t.fs.kind(probed)));
    assert(u.fs == t.fs);
    assert(a == e.step(EventV::Kind(t.fs.kind(probed))));
    lemma_mirror_outside(job.source, job.target, e.source);
    lemma_kind_has(t.fs, e.target);
    if e.phase == Phase::Classify {
        assert(t.fs.node(e.source) == job.before.node(e.source));
        lemma_kind_has(job.before, e.source);
        lemma_kind_has(t.fs, e.source);
    }
    if e.phase == Phase::Mirror {
        assert(kinds_fit(job, t.fs, e.source));
    }
    assert(a == EngineV { phase: a.phase, ..e });
    assert(active(a.phase));
}

/// A copy that cannot fail copies the current file.
proof fn lemma_ready_copying(job: Job, t: RunV, answers: Seq<Seq<char>>)
    requires
        job_ok(job),
        ready(job, t),
        t.engine.phase == Phase::Copying,
    ensures
        ready(job, t.next(answers)),
        effort(job, t.next(answers).engine) < effort(job, t.engine),
{
    let e = t.engine;
    let u = t.next(answers);
    let a = u.engine;
    let action = ActionV::CopyFile(e.source, e.target);
    assert(e.pending() == action);
    assert(t.fs.node(e.source) == job.before.node(e.source));
    lemma_kind_has(job.before, e.source);
    lemma_kind_has(t.fs, e.source);
    assert(kinds_fit(job, t.fs, e.source));
    assert(t.fs.accepts(action));
    let node = t.fs.node(e.source).unwrap();
    assert(u.fs == t.fs.stored(e.target, node));
    assert(a == e.counted().advance());
    lemma_step_copying(job, t, answers);
    lemma_stored(t.fs, e.target, node);
    lemma_advance(job, e.counted());
    lemma_advance_ready(job, t.fs, e.counted());
    assert forall|p: PathV| t.fs.kind(p) == NodeKind::Directory implies #[trigger] u.fs.kind(p)
        == NodeKind::Directory by {
        assert(p != e.target);
    }
    lemma_frames_stay_ready(t.fs, u.fs, a.stack);
    assert forall|q: PathV| job.source.is_prefix_of(q) && #[trigger] job.before.has(
        q,
    ) implies kinds_fit(job, u.fs, q) by {
        assert(kinds_fit(job, t.fs, q));
        if mirror(job.source, job.target, q) == e.target {
            lemma_mirror_injective(job.source, job.target, q, e.source);
        }
    }
    lemma_file_counts_one(job.before, e.source, false);
}

/// A copy that cannot fail creates the mirror that is missing.
proof fn lemma_ready_creating(job: Job, t: RunV, answers: Seq<Seq<char>>)
    requires
        job_ok(job),
        ready(job, t),
        t.engine.phase == Phase::Creating,
    ensures
        ready(job, t.next(answers)),
        effort(job, t.next(answers).engine) < effort(job, t.engine),
{
    let e = t.engine;
    let u = t.next(answers);
    let a = u.engine;
    let action = ActionV::CreateDir(e.target);
    assert(e.pending() == action);
    assert(t.fs.accepts(action));
    assert(u.fs == t.fs.stored(e.target, NodeV::Directory));
    assert(a == EngineV { phase: Phase::Listing, ..e });
    lemma_step_creating(job, t, answers);
    lemma_stored(t.fs, e.target, NodeV::Directory);
    assert forall|p: PathV| t.fs.kind(p) == NodeKind::Directory implies #[trigger] u.fs.kind(p)
        == NodeKind::Directory by {
        assert(p != e.target);
    }
    lemma_frames_stay_ready(t.fs, u.fs, a.stack);
    assert forall|q: PathV| job.source.is_prefix_of(q) && #[trigger] job.before.has(
        q,
    ) implies kinds_fit(job, u.fs, q) by {
        assert(kinds_fit(job, t.fs, q));
        if mirror(job.source, job.target, q) == e.target {
            lemma_mirror_injective(job.source, job.target, q, e.source);
        }
    }
    assert(e.target.parent() != e.target) by {
        assert(e.target.parent().parts.len() != e.target.parts.len());
    }
}

/// A copy that cannot fail lists the current directory.
proof fn lemma_ready_listing(job: Job, t: RunV, answers: Seq<Seq<char>>)
    requires
        job_ok(job),
        ready(job, t),
        t.engine.phase == Phase::Listing,
    ensures
        ready(job, t.next(answers)),
        effort(job, t.next(answers).engine) < effort(job, t.engine),
{
    let e = t.engine;
    let u = t.next(answers);
    let a = u.engine;
    let action = ActionV::ListDir(e.source);
    assert(e.pending() == action);
    assert(t.fs.node(e.source) == job.before.node(e.source));
    assert(t.fs.accepts(action));
    let names = t.fs.children(e.source);
    let frame = FrameV { source: e.source, target: e.target, names, next: 0 };
    let pushed = EngineV { stack: e.stack.push(frame), ..e };
    assert(u.fs == t.fs);
    assert(a == pushed.advance());
    lemma_step_listing(job, t, answers);
    lemma_names_below(t.fs, e.source);
    assert forall|name: Seq<char>| #[trigger]
        names.contains(name) <==> job.before.has(e.source.child(name)) by {
        let child = e.source.child(name);
        lemma_child_below(e.source, name);
        lemma_prefix_chain(job.source, e.source, child);
        assert(t.fs.node(child) == job.before.node(child));
        lemma_kind_has(t.fs, child);
        lemma_kind_has(job.before, child);
    }
    assert(pushed.stack.last() == frame);
    assert(pushed.stack.drop_last() =~= e.stack);
    assert(frames_ok(job, pushed.stack)) by {
        assert forall|i: int| 0 <= i < frame.names.len() implies job.before.has(
            frame.source.child(#[trigger] frame.names[i]),
        ) by {
            assert(names.contains(names[i]));
        }
    }
    assert(frames_ready(t.fs, pushed.stack));
    lemma_advance(job, pushed);
    lemma_advance_ready(job, t.fs, pushed);
    lemma_count_of_directory(job.before, e.source, names, false);
}

/// Every action of a copy that cannot fail brings it forward.
pub proof fn lemma_ready_step(job: Job, t: RunV, answers: Seq<Seq<char>>)
    requires
        job_ok(job),
        ready(job, t),
        t.engine.phase != Phase::Finished,
    ensures
        ready(job, t.next(answers)),
        effort(job, t.next(answers).engine) < effort(job, t.engine),
{
    let e = t.engine;
    if e.phase == Phase::Copying {
        lemma_ready_copying(job, t, answers);
    } else if e.phase == Phase::Creating {
        lemma_ready_creating(job, t, answers);
    } else if e.phase == Phase::Listing {
        lemma_ready_listing(job, t, answers);
    } else {
        lemma_ready_probe(job, t, answers);
    }
}

/// A copy that cannot fail is over once it has been given as many actions
/// as its effort says.
pub proof fn lemma_run_finishes(job: Job, t: RunV, answers: Seq<Seq<char>>, steps: nat)
    requires
        job_ok(job),
        ready(job, t),
        steps >= effort(job, t.engine),
    ensures
        ready(job, t.run(answers, steps)),
        t.run(answers, steps).engine.phase == Phase::Finished,
    decreases steps,
{
    lemma_run_unfold(t, answers, steps);
    if t.engine.phase == Phase::Finished {
        lemma_run_stays(t, answers, steps);
    } else {
        lemma_effort_positive(job, t.engine);
        lemma_ready_step(job, t, answers);
        lemma_run_finishes(job, t.next(answers), answers, (steps - 1) as nat);
    }
}

/// Copying a directory with automatic replacement succeeds wherever the
/// destination holds nothing of the wrong kind, and is over after four
/// actions for each entry of the source and two more.
///
/// The source is a directory, the destination another, and neither of the
/// source and the path that it is written to lies under the other. No
/// directory stands where a file of the source is to be written, and no file
/// where a directory of the source is to be mirrored. Then the copy ends
/// with the number of files of the source as its count.
pub proof fn law_copy_of_tree_succeeds(
    fs: FsV,
    request: TransferRequest,
    answers: Seq<Seq<char>>,
    steps: nat,
)
    requires
        fs.wf(),
        request.mode == Mode::Copy,
        request.flags.auto_yes,
        !request.flags.auto_no,
        !request.flags.auto_rename,
        fs.kind(request.source@) == NodeKind::Directory,
        request.source@.has_name(),
        fs.kind(request.destination@) == NodeKind::Directory,
        !request.source@.is_prefix_of(top_target(request)),
        !top_target(request).is_prefix_of(request.source@),
        fits(Job { before: fs, source: request.source@, target: top_target(request) }, fs),
        steps >= 4 * count_below(fs.entries, request.source@, false) + 2,
    ensures
        begin(fs, request).run(answers, steps).result() == Some(
            Ok::<nat, ErrorV>(files_below(fs.entries, request.source@)),
        ),
{
    let source = request.source@;
    let job = Job { before: fs, source, target: top_target(request) };
    let s0 = begin(fs, request);
    lemma_run_two(s0, answers);
    lemma_run_split(s0, answers, 2, (steps - 2) as nat);
    let s1 = s0.next(answers);
    assert(s0.engine.pending() == ActionV::Probe(source));
    assert(fs.answer(ActionV::Probe(source)) == EventV::Kind(fs.kind(source)));
    assert(s1.fs == fs);
    assert(s1.engine.pending() == ActionV::Probe(request.destination@));
    let s2 = s1.next(answers);
    assert(s2.fs == fs);
    assert(s2.engine == EngineV {
        top_kind: NodeKind::Directory,
        phase: Phase::Mirror,
        ..s0.engine
    });
    lemma_mirror_root(source, job.target);
    lemma_kind_has(fs, source);
    lemma_child_below(request.destination@, source.name());
    assert(s2.engine.stack.len() == 0);
    assert(good(job, s2)) by {
        assert(frames_ok(job, s2.engine.stack));
        assert(current_ok(job, s2.engine));
        assert(stack_remaining(job, s2.engine.stack, true) == 0);
        assert forall|q: PathV| #[trigger] is_file_of(job, q) implies pending(s2.engine, q)
            || s2.fs.node(mirror(job.source, job.target, q)) == job.before.node(q) by {}
    }
    assert(stack_remaining(job, s2.engine.stack, false) == 0);
    assert(ready(job, s2));
    lemma_run_finishes(job, s2, answers, (steps - 2) as nat);
    let end = s2.run(answers, (steps - 2) as nat);
    assert(stack_remaining(job, end.engine.stack, true) == 0);
}

} // verus!
