//! What a successful copy of a directory leaves behind: every file of the
//! source stands under the destination with the same bytes, and the count is
//! the number of files.
//!
//! The proof follows the engine through the tree. At every moment each file
//! of the source either has been mirrored or is still to come: it lies below
//! the current element or below an entry that a pending directory has not
//! yet taken up. The count and the files still to come always add up to the
//! files of the source.

use vstd::prelude::*;
use crate::engine::ActionV;
use crate::engine::EngineV;
use crate::engine::ErrorV;
use crate::engine::EventV;
use crate::engine::FrameV;
use crate::engine::NodeKind;
use crate::engine::Phase;
use crate::engine::TransferRequest;
use crate::laws::lemma_run_keeps;
use crate::laws::lemma_run_one;
use crate::laws::lemma_run_two;
use crate::laws::top_target;
use crate::memfs::lemma_after_wf;
use crate::memfs::lemma_names_below;
use crate::memfs::lemma_stored;
use crate::memfs::FsV;
use crate::memfs::NodeV;
use crate::path::PathV;
use crate::policy::Mode;
use crate::transfer::begin;
use crate::transfer::lemma_run_split;
use crate::transfer::lemma_run_unfold;
use crate::transfer::RunV;
use crate::tree::files_below;
use crate::tree::lemma_above_is_directory;
use crate::tree::lemma_below_some_child;
use crate::tree::lemma_child_below;
use crate::tree::count_below;
use crate::tree::lemma_count_of_directory;
use crate::tree::lemma_file_counts_one;
use crate::tree::lemma_kind_has;
use crate::tree::lemma_prefix_chain;
use crate::tree::sum_below;

verus! {

/// Where `path`, which lies under `source`, is written to when `source` is
/// written to `target`.
pub open spec fn mirror(source: PathV, target: PathV, path: PathV) -> PathV {
    PathV { anchor: target.anchor, parts: target.parts + path.parts.skip(source.parts.len() as int) }
}

/// The source itself is written to the target.
pub proof fn lemma_mirror_root(source: PathV, target: PathV)
    ensures
        mirror(source, target, source) == target,
{
    assert(target.parts + source.parts.skip(source.parts.len() as int) =~= target.parts);
}

/// The entries of a directory are written to the entries of its mirror.
pub proof fn lemma_mirror_child(source: PathV, target: PathV, dir: PathV, name: Seq<char>)
    requires
        source.is_prefix_of(dir),
    ensures
        mirror(source, target, dir.child(name)) == mirror(source, target, dir).child(name),
{
    let n = source.parts.len() as int;
    assert(dir.parts.push(name).skip(n) =~= dir.parts.skip(n).push(name));
    assert(target.parts + dir.parts.skip(n).push(name) =~= (target.parts + dir.parts.skip(
        n,
    )).push(name));
}

/// Where neither of source and target lies under the other, nothing is
/// written into the source.
pub proof fn lemma_mirror_outside(source: PathV, target: PathV, path: PathV)
    requires
        !source.is_prefix_of(target),
        !target.is_prefix_of(source),
    ensures
        !source.is_prefix_of(mirror(source, target, path)),
{
    let m = mirror(source, target, path);
    if source.is_prefix_of(m) {
        let n = source.parts.len() as int;
        let k = target.parts.len() as int;
        assert(m.parts.subrange(0, n) =~= source.parts);
        if n <= k {
            assert(target.parts.subrange(0, n) =~= source.parts) by {
                assert forall|i: int| 0 <= i < n implies target.parts[i] == source.parts[i] by {
                    assert(m.parts.subrange(0, n)[i] == source.parts[i]);
                }
            }
        } else {
            assert(source.parts.subrange(0, k) =~= target.parts) by {
                assert forall|i: int| 0 <= i < k implies source.parts[i] == target.parts[i] by {
                    assert(m.parts.subrange(0, n)[i] == source.parts[i]);
                }
            }
        }
    }
}

/// Two paths under the source are written to two places.
pub proof fn lemma_mirror_injective(source: PathV, target: PathV, a: PathV, b: PathV)
    requires
        source.is_prefix_of(a),
        source.is_prefix_of(b),
        mirror(source, target, a) == mirror(source, target, b),
    ensures
        a == b,
{
    let n = source.parts.len() as int;
    let k = target.parts.len() as int;
    let ma = mirror(source, target, a).parts;
    let mb = mirror(source, target, b).parts;
    assert(a.parts.subrange(0, n) =~= source.parts);
    assert(b.parts.subrange(0, n) =~= source.parts);
    assert(ma.len() == k + a.parts.len() - n);
    assert(mb.len() == k + b.parts.len() - n);
    assert forall|i: int| 0 <= i < a.parts.len() implies a.parts[i] == b.parts[i] by {
        if i < n {
            assert(a.parts.subrange(0, n)[i] == source.parts[i]);
            assert(b.parts.subrange(0, n)[i] == source.parts[i]);
        } else {
            assert(ma[k + i - n] == a.parts.skip(n)[i - n]);
            assert(mb[k + i - n] == b.parts.skip(n)[i - n]);
        }
    }
    assert(a.parts =~= b.parts);
}

/// A copy under way: the tree as it was before, the source and the path that
/// the source is written to.
pub struct Job {
    pub before: FsV,
    pub source: PathV,
    pub target: PathV,
}

/// The source is a directory of a well-formed tree, and neither of source
/// and target lies under the other.
pub open spec fn job_ok(job: Job) -> bool {
    &&& job.before.wf()
    &&& job.before.kind(job.source) == NodeKind::Directory
    &&& !job.source.is_prefix_of(job.target)
    &&& !job.target.is_prefix_of(job.source)
}

/// Whether `path` is a file of the source.
pub open spec fn is_file_of(job: Job, path: PathV) -> bool {
    job.source.is_prefix_of(path) && job.before.kind(path) == NodeKind::File
}

/// Whether the engine is handling an element.
pub open spec fn active(phase: Phase) -> bool {
    phase == Phase::Classify || phase == Phase::Collide || phase == Phase::Copying || phase
        == Phase::Mirror || phase == Phase::Creating || phase == Phase::Listing
}

/// A directory being walked is a directory of the source, it is mirrored
/// where it belongs, and its entries exist.
pub open spec fn frame_ok(job: Job, frame: FrameV) -> bool {
    &&& job.source.is_prefix_of(frame.source)
    &&& frame.target == mirror(job.source, job.target, frame.source)
    &&& frame.next <= frame.names.len()
    &&& forall|i: int|
        0 <= i < frame.names.len() ==> job.before.has(frame.source.child(#[trigger] frame.names[i]))
}

/// Every directory being walked is in order.
pub open spec fn frames_ok(job: Job, stack: Seq<FrameV>) -> bool
    decreases stack.len(),
{
    stack.len() == 0 || (frame_ok(job, stack.last()) && frames_ok(job, stack.drop_last()))
}

/// Whether `path` lies below an entry that the directory has not taken up.
pub open spec fn frame_pending(frame: FrameV, path: PathV) -> bool {
    exists|i: int|
        frame.next <= i < frame.names.len() && frame.source.child(
            #[trigger] frame.names[i],
        ).is_prefix_of(path)
}

/// Whether `path` lies below an entry that one of the directories has not
/// taken up.
pub open spec fn stack_pending(stack: Seq<FrameV>, path: PathV) -> bool
    decreases stack.len(),
{
    stack.len() > 0 && (frame_pending(stack.last(), path) || stack_pending(
        stack.drop_last(),
        path,
    ))
}

/// Whether `path` is still to come.
pub open spec fn pending(e: EngineV, path: PathV) -> bool {
    (active(e.phase) && e.source.is_prefix_of(path)) || stack_pending(e.stack, path)
}

/// What is counted below the entries that the directories have not taken
/// up.
pub open spec fn stack_remaining(job: Job, stack: Seq<FrameV>, files_only: bool) -> nat
    decreases stack.len(),
{
    if stack.len() == 0 {
        0
    } else {
        sum_below(
            job.before.entries,
            stack.last().source,
            stack.last().names,
            stack.last().next,
            files_only,
        ) + stack_remaining(job, stack.drop_last(), files_only)
    }
}

/// What is still to come: the files of the source, or its entries of either
/// kind.
pub open spec fn remaining(job: Job, e: EngineV, files_only: bool) -> nat {
    (if active(e.phase) {
        count_below(job.before.entries, e.source, files_only)
    } else {
        0
    }) + stack_remaining(job, e.stack, files_only)
}

/// The current element belongs to the source, is written where it belongs,
/// and is of the kind that the phase takes it for.
pub open spec fn current_ok(job: Job, e: EngineV) -> bool {
    &&& job.source.is_prefix_of(e.source)
    &&& e.target == mirror(job.source, job.target, e.source)
    &&& job.before.has(e.source)
    &&& (e.phase == Phase::Collide || e.phase == Phase::Copying ==> job.before.kind(e.source)
        == NodeKind::File)
    &&& (e.phase == Phase::Mirror || e.phase == Phase::Creating || e.phase == Phase::Listing
        ==> job.before.kind(e.source) == NodeKind::Directory)
}

/// What holds while the copy runs without error.
pub open spec fn good(job: Job, t: RunV) -> bool {
    let e = t.engine;
    &&& t.fs.wf()
    &&& e.mode == Mode::Copy
    &&& e.flags.auto_yes
    &&& !e.flags.auto_rename
    &&& (active(e.phase) || e.phase == Phase::Finished)
    &&& (forall|q: PathV|
        job.source.is_prefix_of(q) ==> #[trigger] t.fs.node(q) == job.before.node(q))
    &&& frames_ok(job, e.stack)
    &&& (active(e.phase) ==> current_ok(job, e))
    &&& (forall|q: PathV| #[trigger]
        is_file_of(job, q) ==> pending(e, q) || t.fs.node(mirror(job.source, job.target, q))
            == job.before.node(q))
    &&& e.count + remaining(job, e, true) == files_below(job.before.entries, job.source)
    &&& (e.phase == Phase::Finished ==> e.stack.len() == 0 && e.outcome == Ok::<nat, ErrorV>(
        e.count,
    ))
}

/// What holds while the copy runs: it has failed, or all is in order.
pub open spec fn mirroring(job: Job, t: RunV) -> bool {
    (t.engine.phase == Phase::Finished && t.engine.outcome is Err) || good(job, t)
}

/// Moving on takes the next entry of the innermost directory that has one.
/// What was still to come in the directories is still to come.
pub proof fn lemma_advance(job: Job, e: EngineV)
    requires
        job_ok(job),
        e.mode == Mode::Copy,
        frames_ok(job, e.stack),
    ensures
        ({
            let a = e.advance();
            &&& (a.phase == Phase::Classify || a.phase == Phase::Finished)
            &&& a.count == e.count
            &&& a.mode == e.mode
            &&& a.flags == e.flags
            &&& frames_ok(job, a.stack)
            &&& (a.phase == Phase::Finished ==> a.stack.len() == 0 && a.outcome == Ok::<
                nat,
                ErrorV,
            >(e.count))
            &&& (a.phase == Phase::Classify ==> current_ok(job, a))
            &&& remaining(job, a, true) == stack_remaining(job, e.stack, true)
            &&& remaining(job, a, false) == stack_remaining(job, e.stack, false)
        }),
    decreases e.stack.len(),
{
    if e.stack.len() > 0 {
        let top = e.stack.last();
        let rest = e.stack.drop_last();
        if top.next < top.names.len() {
            let a = e.advance();
            let name = top.names[top.next as int];
            let taken = FrameV { next: top.next + 1, ..top };
            assert(a.stack.last() == taken);
            assert(a.stack.drop_last() =~= rest);
            assert(frame_ok(job, taken));
            lemma_child_below(top.source, name);
            lemma_prefix_chain(job.source, top.source, top.source.child(name));
            lemma_mirror_child(job.source, job.target, top.source, name);
        } else {
            lemma_advance(job, EngineV { stack: rest, ..e });
        }
    }
}

/// A path is still to come after moving on exactly if it was still to come
/// in the directories.
pub proof fn lemma_advance_pending(job: Job, e: EngineV, path: PathV)
    requires
        e.mode == Mode::Copy,
        frames_ok(job, e.stack),
    ensures
        pending(e.advance(), path) == stack_pending(e.stack, path),
    decreases e.stack.len(),
{
    if e.stack.len() > 0 {
        let top = e.stack.last();
        let rest = e.stack.drop_last();
        if top.next < top.names.len() {
            let a = e.advance();
            let taken = FrameV { next: top.next + 1, ..top };
            assert(a.stack.last() == taken);
            assert(a.stack.drop_last() =~= rest);
            if frame_pending(top, path) {
                let i = choose|i: int|
                    top.next <= i < top.names.len() && top.source.child(
                        #[trigger] top.names[i],
                    ).is_prefix_of(path);
                if i != top.next {
                    assert(taken.next <= i < taken.names.len() && taken.source.child(
                        taken.names[i],
                    ).is_prefix_of(path));
                }
            }
            if frame_pending(taken, path) {
                let i = choose|i: int|
                    taken.next <= i < taken.names.len() && taken.source.child(
                        #[trigger] taken.names[i],
                    ).is_prefix_of(path);
                assert(top.next <= i < top.names.len() && top.source.child(
                    top.names[i],
                ).is_prefix_of(path));
            }
            if a.source.is_prefix_of(path) {
                assert(top.source.child(top.names[top.next as int]).is_prefix_of(path));
            }
        } else {
            lemma_advance_pending(job, EngineV { stack: rest, ..e }, path);
            assert(!frame_pending(top, path));
        }
    }
}

/// A probe changes nothing but what the engine takes the element for.
pub proof fn lemma_step_probe(job: Job, t: RunV, answers: Seq<Seq<char>>)
    requires
        job_ok(job),
        good(job, t),
        t.engine.phase == Phase::Classify || t.engine.phase == Phase::Collide || t.engine.phase
            == Phase::Mirror,
    ensures
        mirroring(job, t.next(answers)),
{
    let e = t.engine;
    let u = t.next(answers);
    let a = u.engine;
    let probed = if e.phase == Phase::Classify {
        e.source
    } else {
        e.target
    };
    assert(e.pending() == ActionV::Probe(probed));
    assert(t.fs.answer(ActionV::Probe(probed)) == EventV::Kind(t.fs.kind(probed)));
    assert(u.fs == t.fs);
    assert(a == e.step(EventV::Kind(t.fs.kind(probed))));
    if e.phase == Phase::Classify {
        assert(t.fs.node(e.source) == job.before.node(e.source));
        lemma_kind_has(job.before, e.source);
        lemma_kind_has(t.fs, e.source);
        assert(t.fs.kind(e.source) == job.before.kind(e.source));
    }
    if !(a.phase == Phase::Finished) {
        assert(a == EngineV { phase: a.phase, ..e });
        assert(active(a.phase));
        assert forall|q: PathV| #[trigger] is_file_of(job, q) implies pending(a, q) || u.fs.node(
            mirror(job.source, job.target, q),
        ) == job.before.node(q) by {
            assert(pending(a, q) == pending(e, q));
        }
    }
}

/// A copied file is mirrored and counted.
pub proof fn lemma_step_copying(job: Job, t: RunV, answers: Seq<Seq<char>>)
    requires
        job_ok(job),
        good(job, t),
        t.engine.phase == Phase::Copying,
    ensures
        mirroring(job, t.next(answers)),
{
    let e = t.engine;
    let u = t.next(answers);
    let a = u.engine;
    let action = ActionV::CopyFile(e.source, e.target);
    assert(e.pending() == action);
    if t.fs.accepts(action) {
        let node = t.fs.node(e.source).unwrap();
        assert(u.fs == t.fs.stored(e.target, node));
        assert(a == e.counted().advance());
        lemma_after_wf(t.fs, action);
        lemma_stored(t.fs, e.target, node);
        lemma_advance(job, e.counted());
        lemma_mirror_outside(job.source, job.target, e.source);
        assert(t.fs.node(e.source) == job.before.node(e.source));
        assert forall|q: PathV| job.source.is_prefix_of(q) implies #[trigger] u.fs.node(q)
            == job.before.node(q) by {
            assert(t.fs.node(q) == job.before.node(q));
            assert(q != e.target);
        }
        assert forall|q: PathV| #[trigger] is_file_of(job, q) implies pending(a, q) || u.fs.node(
            mirror(job.source, job.target, q),
        ) == job.before.node(q) by {
            lemma_advance_pending(job, e.counted(), q);
            lemma_kind_has(job.before, q);
            if q == e.source {
            } else if e.source.is_prefix_of(q) {
                lemma_above_is_directory(job.before, e.source, q);
            } else if stack_pending(e.stack, q) {
            } else {
                assert(!pending(e, q));
                if mirror(job.source, job.target, q) == e.target {
                    lemma_mirror_injective(job.source, job.target, q, e.source);
                }
            }
        }
        lemma_file_counts_one(job.before, e.source, true);
    }
}

/// A mirror that is created disturbs nothing.
pub proof fn lemma_step_creating(job: Job, t: RunV, answers: Seq<Seq<char>>)
    requires
        job_ok(job),
        good(job, t),
        t.engine.phase == Phase::Creating,
    ensures
        mirroring(job, t.next(answers)),
{
    let e = t.engine;
    let u = t.next(answers);
    let a = u.engine;
    let action = ActionV::CreateDir(e.target);
    assert(e.pending() == action);
    if t.fs.accepts(action) {
        assert(u.fs == t.fs.stored(e.target, NodeV::Directory));
        assert(a == EngineV { phase: Phase::Listing, ..e });
        lemma_after_wf(t.fs, action);
        lemma_stored(t.fs, e.target, NodeV::Directory);
        lemma_mirror_outside(job.source, job.target, e.source);
        lemma_kind_has(t.fs, e.target);
        assert forall|q: PathV| job.source.is_prefix_of(q) implies #[trigger] u.fs.node(q)
            == job.before.node(q) by {
            assert(t.fs.node(q) == job.before.node(q));
            assert(q != e.target);
        }
        assert forall|q: PathV| #[trigger] is_file_of(job, q) implies pending(a, q) || u.fs.node(
            mirror(job.source, job.target, q),
        ) == job.before.node(q) by {
            assert(pending(a, q) == pending(e, q));
            lemma_kind_has(job.before, q);
        }
    }
}

/// A directory that is listed hands what was to come over to its entries.
pub proof fn lemma_step_listing(job: Job, t: RunV, answers: Seq<Seq<char>>)
    requires
        job_ok(job),
        good(job, t),
        t.engine.phase == Phase::Listing,
    ensures
        mirroring(job, t.next(answers)),
{
    let e = t.engine;
    let u = t.next(answers);
    let a = u.engine;
    let action = ActionV::ListDir(e.source);
    assert(e.pending() == action);
    assert(t.fs.node(e.source) == job.before.node(e.source));
    assert(t.fs.accepts(action));
    let names = t.fs.children(e.source);
    let frame = FrameV { source: e.source, target: e.target, names, next: 0 };
    let pushed = EngineV { stack: e.stack.push(frame), ..e };
    assert(u.fs == t.fs);
    assert(a == pushed.advance());
    lemma_names_below(t.fs, e.source);
    assert forall|name: Seq<char>| #[trigger]
        names.contains(name) <==> job.before.has(e.source.child(name)) by {
        let child = e.source.child(name);
        lemma_child_below(e.source, name);
        lemma_prefix_chain(job.source, e.source, child);
        assert(t.fs.node(child) == job.before.node(child));
        lemma_kind_has(t.fs, child);
        lemma_kind_has(job.before, child);
    }
    assert(frame_ok(job, frame)) by {
        assert forall|i: int| 0 <= i < frame.names.len() implies job.before.has(
            frame.source.child(#[trigger] frame.names[i]),
        ) by {
            assert(names.contains(names[i]));
        }
    }
    assert(pushed.stack.last() == frame);
    assert(pushed.stack.drop_last() =~= e.stack);
    lemma_advance(job, pushed);
    lemma_count_of_directory(job.before, e.source, names, true);
    assert forall|q: PathV| #[trigger] is_file_of(job, q) implies pending(a, q) || u.fs.node(
        mirror(job.source, job.target, q),
    ) == job.before.node(q) by {
        lemma_advance_pending(job, pushed, q);
        lemma_kind_has(job.before, q);
        if e.source.is_prefix_of(q) {
            lemma_below_some_child(e.source, q);
            let name = q.parts[e.source.parts.len() as int];
            let child = e.source.child(name);
            if child != q {
                lemma_above_is_directory(job.before, child, q);
            }
            lemma_kind_has(job.before, child);
            assert(names.contains(name));
            let i = choose|i: int| 0 <= i < names.len() && names[i] == name;
            assert(frame.next <= i < frame.names.len() && frame.source.child(
                frame.names[i],
            ).is_prefix_of(q));
            assert(frame_pending(frame, q));
        } else if stack_pending(e.stack, q) {
        }
    }
}

pub proof fn lemma_mirroring_step(job: Job, t: RunV, answers: Seq<Seq<char>>)
    requires
        job_ok(job),
        mirroring(job, t),
    ensures
        mirroring(job, t.next(answers)),
{
    let e = t.engine;
    if e.phase == Phase::Finished {
    } else if e.phase == Phase::Copying {
        lemma_step_copying(job, t, answers);
    } else if e.phase == Phase::Creating {
        lemma_step_creating(job, t, answers);
    } else if e.phase == Phase::Listing {
        lemma_step_listing(job, t, answers);
    } else {
        lemma_step_probe(job, t, answers);
    }
}

/// Copying a directory with automatic replacement mirrors it.
///
/// The source is a directory, the destination another, and neither of the
/// source and the path that it is written to lies under the other. If the
/// copy succeeds, its count is the number of files at or below the source;
/// each of them stands under the destination, at the same place relative to
/// it, with the same bytes; and the source is as it was.
pub proof fn law_copy_mirrors_tree(
    fs: FsV,
    request: TransferRequest,
    answers: Seq<Seq<char>>,
    steps: nat,
)
    requires
        fs.wf(),
        request.mode == Mode::Copy,
        request.flags.auto_yes,
        !request.flags.auto_rename,
        fs.kind(request.source@) == NodeKind::Directory,
        request.source@.has_name(),
        fs.kind(request.destination@) == NodeKind::Directory,
        !request.source@.is_prefix_of(top_target(request)),
        !top_target(request).is_prefix_of(request.source@),
    ensures
        match begin(fs, request).run(answers, steps).result() {
            Some(Ok(n)) => {
                &&& n == files_below(fs.entries, request.source@)
                &&& forall|q: PathV|
                    request.source@.is_prefix_of(q) ==> #[trigger] begin(fs, request).run(
                        answers,
                        steps,
                    ).fs.node(q) == fs.node(q)
                &&& forall|q: PathV|
                    request.source@.is_prefix_of(q) && #[trigger] fs.kind(q) == NodeKind::File
                        ==> begin(fs, request).run(answers, steps).fs.node(
                        mirror(request.source@, top_target(request), q),
                    ) == fs.node(q)
            },
            _ => true,
        },
{
    let source = request.source@;
    let job = Job { before: fs, source, target: top_target(request) };
    let s0 = begin(fs, request);
    lemma_run_unfold(s0, answers, steps);
    if steps == 0 {
    } else if steps == 1 {
        lemma_run_one(s0, answers);
        assert(s0.engine.pending() == ActionV::Probe(source));
    } else {
        lemma_run_two(s0, answers);
        lemma_run_split(s0, answers, 2, (steps - 2) as nat);
        let s1 = s0.next(answers);
        assert(s0.engine.pending() == ActionV::Probe(source));
        assert(fs.answer(ActionV::Probe(source)) == EventV::Kind(fs.kind(source)));
        assert(s1.fs == fs);
        assert(s1.engine.pending() == ActionV::Probe(request.destination@));
        let s2 = s1.next(answers);
        assert(s2.fs == fs);
        assert(s2.engine == EngineV {
            top_kind: NodeKind::Directory,
            phase: Phase::Mirror,
            ..s0.engine
        });
        lemma_mirror_root(source, job.target);
        lemma_kind_has(fs, source);
        assert(s2.engine.stack.len() == 0);
        assert(good(job, s2)) by {
            assert(frames_ok(job, s2.engine.stack));
            assert(current_ok(job, s2.engine));
            assert(stack_remaining(job, s2.engine.stack, true) == 0);
            assert forall|q: PathV| #[trigger] is_file_of(job, q) implies pending(s2.engine, q)
                || s2.fs.node(mirror(job.source, job.target, q)) == job.before.node(q) by {}
        }
        let inv = |t: RunV| mirroring(job, t);
        assert forall|t: RunV| inv(t) implies inv(#[trigger] t.next(answers)) by {
            lemma_mirroring_step(job, t, answers);
        }
        lemma_run_keeps(inv, s2, answers, (steps - 2) as nat);
        let end = s2.run(answers, (steps - 2) as nat);
        if end.engine.phase == Phase::Finished && end.engine.outcome is Ok {
            assert(good(job, end));
            assert(stack_remaining(job, end.engine.stack, true) == 0);
            assert forall|q: PathV|
                source.is_prefix_of(q) && #[trigger] fs.kind(q) == NodeKind::File implies end.fs.node(
                mirror(source, job.target, q),
            ) == fs.node(q) by {
                assert(is_file_of(job, q));
                assert(!stack_pending(end.engine.stack, q));
            }
        }
    }
}

} // verus!
