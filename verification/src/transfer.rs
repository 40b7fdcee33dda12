//! Transfers inside an in-memory filesystem.
//!
//! The engine is run to its end against a `MemFs`: each action that it
//! names is carried out on the tree, and what the tree answers is handed
//! back. Questions to the user are answered from a script of lines. This is
//! at once a way to try a transfer without a disk and the definition of what
//! a transfer does to a tree.

use vstd::prelude::*;
use crate::engine::outcome_view;
use crate::engine::Action;
use crate::engine::ActionV;
use crate::engine::Engine;
use crate::engine::EngineV;
use crate::engine::ErrorV;
use crate::engine::Event;
use crate::engine::EventV;
use crate::engine::Phase;
use crate::engine::TransferError;
use crate::engine::TransferRequest;
use crate::memfs::FsV;
use crate::memfs::MemFs;

verus! {

/// A transfer under way: the tree, the engine, and how many lines of the
/// script have been used.
pub struct RunV {
    pub fs: FsV,
    pub engine: EngineV,
    pub asked: nat,
}

impl RunV {
    /// The transfer one action later. A finished transfer stays as it is,
    /// and so does one that asks the user when the script has run out.
    pub open spec fn next(self, answers: Seq<Seq<char>>) -> RunV {
        match self.engine.pending() {
            ActionV::Finish(_) => self,
            ActionV::Ask(_) => if self.asked < answers.len() {
                RunV {
                    fs: self.fs,
                    engine: self.engine.step(EventV::Answer(answers[self.asked as int])),
                    asked: self.asked + 1,
                }
            } else {
                self
            },
            action => RunV {
                fs: self.fs.after(action),
                engine: self.engine.step(self.fs.answer(action)),
                asked: self.asked,
            },
        }
    }

    /// The transfer `steps` actions later.
    #[verifier::opaque]
    pub open spec fn run(self, answers: Seq<Seq<char>>, steps: nat) -> RunV
        decreases steps,
    {
        if steps == 0 {
            self
        } else {
            self.next(answers).run(answers, (steps - 1) as nat)
        }
    }

    /// The result of the transfer, once it is over.
    pub open spec fn result(self) -> Option<Result<nat, ErrorV>> {
        if self.engine.phase == Phase::Finished {
            Some(self.engine.outcome)
        } else {
            None
        }
    }
}

/// The beginning of the transfer that `request` asks for, in the tree `fs`.
pub open spec fn begin(fs: FsV, request: TransferRequest) -> RunV {
    RunV {
        fs,
        engine: EngineV::initial(
            request.source@,
            request.destination@,
            request.mode,
            request.flags,
            request.bound as nat,
        ),
        asked: 0,
    }
}

/// The mathematical value of what `transfer` returns.
pub open spec fn result_view(result: Option<Result<u64, TransferError>>) -> Option<
    Result<nat, ErrorV>,
> {
    match result {
        Some(outcome) => Some(outcome_view(outcome)),
        None => None,
    }
}

/// Running for no step changes nothing; running for some steps is taking
/// one and running on.
pub proof fn lemma_run_unfold(s: RunV, answers: Seq<Seq<char>>, steps: nat)
    ensures
        s.run(answers, 0) == s,
        steps > 0 ==> s.run(answers, steps) == s.next(answers).run(answers, (steps - 1) as nat),
{
    reveal_with_fuel(RunV::run, 2);
}

/// A transfer that does not change in one step never changes.
pub proof fn lemma_run_stays(s: RunV, answers: Seq<Seq<char>>, steps: nat)
    requires
        s.next(answers) == s,
    ensures
        s.run(answers, steps) == s,
    decreases steps,
{
    lemma_run_unfold(s, answers, steps);
    if steps > 0 {
        lemma_run_stays(s, answers, (steps - 1) as nat);
    }
}

/// Running in two stretches is running once.
pub proof fn lemma_run_split(s: RunV, answers: Seq<Seq<char>>, first: nat, second: nat)
    ensures
        s.run(answers, first + second) == s.run(answers, first).run(answers, second),
    decreases first,
{
    lemma_run_unfold(s, answers, first);
    lemma_run_unfold(s, answers, first + second);
    if first > 0 {
        lemma_run_split(s.next(answers), answers, (first - 1) as nat, second);
    }
}

/// The stack does not matter to the count: moving on to the next element
/// transfers nothing.
pub proof fn lemma_advance_keeps_count(e: EngineV)
    ensures
        e.advance().count == e.count,
        e.advance().mode == e.mode,
        e.advance().flags == e.flags,
        e.advance().bound == e.bound,
    decreases e.stack.len(),
{
    if e.stack.len() > 0 {
        let top = e.stack.last();
        if top.next >= top.names.len() && e.mode != crate::policy::Mode::Move {
            lemma_advance_keeps_count(EngineV { stack: e.stack.drop_last(), ..e });
        }
    }
}

/// One event transfers at most one file.
pub proof fn lemma_step_counts_one(e: EngineV, event: EventV)
    ensures
        e.count <= e.step(event).count <= e.count + 1,
        e.step(event).mode == e.mode,
        e.step(event).flags == e.flags,
        e.step(event).bound == e.bound,
{
    lemma_advance_keeps_count(e);
    lemma_advance_keeps_count(e.counted());
    match event {
        EventV::Entries(names) => {
            lemma_advance_keeps_count(
                EngineV {
                    stack: e.stack.push(
                        crate::engine::FrameV {
                            source: e.source,
                            target: e.target,
                            names,
                            next: 0,
                        },
                    ),
                    ..e
                },
            );
        },
        _ => {},
    }
}

/// Carries out the pending action of `engine` on `fs` and hands the answer
/// back. Returns whether anything happened: nothing does once the transfer
/// is over, or when the user is asked and `answers` has no line left.
fn advance(fs: &mut MemFs, engine: &mut Engine, answers: &Vec<String>, asked: &mut usize) -> (moved:
    bool)
    requires
        old(fs)@.wf(),
        *old(asked) <= answers.len(),
        old(engine).count < u64::MAX,
    ensures
        final(fs)@.wf(),
        *final(asked) <= answers.len(),
        final(engine).count <= old(engine).count + 1,
        (RunV { fs: final(fs)@, engine: final(engine)@, asked: *final(asked) as nat }) == (RunV {
            fs: old(fs)@,
            engine: old(engine)@,
            asked: *old(asked) as nat,
        }).next(answers.deep_view()),
        !moved ==> final(fs)@ == old(fs)@ && final(engine)@ == old(engine)@ && *final(asked)
            == *old(asked),
        !moved ==> (final(engine).phase == Phase::Finished ==> outcome_view(final(engine).outcome)
            == final(engine)@.outcome),
{
    let action = engine.pending();
    match action {
        Action::Finish(_) => false,
        Action::Ask(_) => {
            if *asked >= answers.len() {
                return false;
            }
            let line = answers[*asked].clone();
            assert(line@ == answers.deep_view()[*asked as int]);
            proof {
                lemma_step_counts_one(engine@, EventV::Answer(line@));
            }
            engine.step(Event::Answer(line));
            *asked = *asked + 1;
            true
        },
        _ => {
            proof {
                lemma_step_counts_one(engine@, fs@.answer(action@));
            }
            let event = fs.perform(&action);
            engine.step(event);
            true
        },
    }
}

/// Runs the transfer that `request` asks for inside `fs`, for at most
/// `max_steps` actions. Each question to the user takes the next line of
/// `answers`.
///
/// Returns the transfer's result, or `None` where it was not over after
/// `max_steps` actions or asked more questions than `answers` has lines.
/// The tree is left as the actions that were carried out made it.
pub fn transfer(
    fs: &mut MemFs,
    request: TransferRequest,
    answers: &Vec<String>,
    max_steps: u64,
) -> (result: Option<Result<u64, TransferError>>)
    requires
        old(fs)@.wf(),
    ensures
        final(fs)@ == begin(old(fs)@, request).run(answers.deep_view(), max_steps as nat).fs,
        result_view(result) == begin(old(fs)@, request).run(
            answers.deep_view(),
            max_steps as nat,
        ).result(),
        final(fs)@.wf(),
{
    let ghost script = answers.deep_view();
    let ghost end = begin(fs@, request).run(script, max_steps as nat);
    let mut engine = Engine::start(request);
    let mut asked: usize = 0;
    let mut steps: u64 = 0;
    proof {
        lemma_run_unfold(begin(fs@, request), script, max_steps as nat);
    }
    while steps < max_steps
        invariant
            steps <= max_steps,
            script == answers.deep_view(),
            asked <= answers.len(),
            fs@.wf(),
            engine.count <= steps,
            (RunV { fs: fs@, engine: engine@, asked: asked as nat }).run(
                script,
                (max_steps - steps) as nat,
            ) == end,
            steps == max_steps ==> (RunV { fs: fs@, engine: engine@, asked: asked as nat }) == end,
        ensures
            (RunV { fs: fs@, engine: engine@, asked: asked as nat }) == end,
        decreases max_steps - steps,
    {
        let ghost now = RunV { fs: fs@, engine: engine@, asked: asked as nat };
        proof {
            lemma_run_unfold(now, script, (max_steps - steps) as nat);
        }
        let moved = advance(fs, &mut engine, answers, &mut asked);
        if !moved {
            proof {
                lemma_run_stays(now, script, (max_steps - steps) as nat);
            }
            break ;
        }
        steps = steps + 1;
        proof {
            lemma_run_unfold(
                RunV { fs: fs@, engine: engine@, asked: asked as nat },
                script,
                (max_steps - steps) as nat,
            );
        }
    }
    let ghost last = RunV { fs: fs@, engine: engine@, asked: asked as nat };
    assert(last == end);
    if engine.is_finished() {
        Some(engine.outcome)
    } else {
        None
    }
}

} // verus!
