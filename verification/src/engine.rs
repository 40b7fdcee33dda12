//! The tree-transfer engine.
//!
//! A transfer walks the source depth first. Files are copied (and, when
//! moving, removed afterwards); directories are mirrored under the
//! destination and then walked in turn. The engine itself touches nothing:
//! it is a machine that names the next filesystem operation, is told how
//! that operation went, and names the one after. Its state is an explicit
//! stack of the directories being walked, so a caller can run it against a
//! real disk, an in-memory tree, or a script of answers.
//!
//! Nothing is rolled back. What was transferred before an error stays
//! transferred.

use vstd::prelude::*;
use crate::path::Path;
use crate::path::PathV;
use crate::policy::answer_meaning;
use crate::policy::decide;
use crate::policy::interpret_answer;
use crate::policy::ruling;
use crate::policy::Decision;
use crate::policy::Flags;
use crate::policy::Mode;
use crate::policy::Ruling;
use crate::rename::numbered;
use crate::rename::numbered_name;
use crate::rename::DEFAULT_BOUND;
use crate::rename::FIRST_NUMBER;
use crate::args::UsageError;

verus! {

/// What a path leads to.
#[derive(Clone, Copy, Debug, PartialEq, Eq, Structural)]
pub enum NodeKind {
    /// A regular file.
    File,
    /// A directory.
    Directory,
    /// Something that exists and is neither.
    Other,
    /// Nothing.
    Missing,
}

/// Why a transfer stopped. The mathematical value of `TransferError`.
pub enum ErrorV {
    SourceMissing,
    DestinationMissing,
    DestinationNotDirectory,
    SourceUnnamed,
    SameLocation(PathV),
    AlreadyExists(PathV),
    BoundExceeded(PathV),
    Io(PathV, Seq<char>),
}

/// Why a transfer stopped.
#[derive(Debug, PartialEq, Eq)]
pub enum TransferError {
    /// The source does not exist.
    SourceMissing,
    /// The destination does not exist.
    DestinationMissing,
    /// The destination exists and is no directory.
    DestinationNotDirectory,
    /// The source does not end in a name, so nothing can be called after it.
    SourceUnnamed,
    /// The file would be transferred onto itself.
    SameLocation(Path),
    /// The destination name is taken and collisions are refused.
    AlreadyExists(Path),
    /// Every numbered name up to the bound is taken.
    BoundExceeded(Path),
    /// A filesystem operation on this path failed, with the reason given.
    Io(Path, String),
}

impl View for TransferError {
    type V = ErrorV;

    open spec fn view(&self) -> ErrorV {
        match self {
            TransferError::SourceMissing => ErrorV::SourceMissing,
            TransferError::DestinationMissing => ErrorV::DestinationMissing,
            TransferError::DestinationNotDirectory => ErrorV::DestinationNotDirectory,
            TransferError::SourceUnnamed => ErrorV::SourceUnnamed,
            TransferError::SameLocation(p) => ErrorV::SameLocation(p@),
            TransferError::AlreadyExists(p) => ErrorV::AlreadyExists(p@),
            TransferError::BoundExceeded(p) => ErrorV::BoundExceeded(p@),
            TransferError::Io(p, m) => ErrorV::Io(p@, m@),
        }
    }
}

impl Clone for TransferError {
    fn clone(&self) -> (out: Self)
        ensures
            out@ == self@,
    {
        match self {
            TransferError::SourceMissing => TransferError::SourceMissing,
            TransferError::DestinationMissing => TransferError::DestinationMissing,
            TransferError::DestinationNotDirectory => TransferError::DestinationNotDirectory,
            TransferError::SourceUnnamed => TransferError::SourceUnnamed,
            TransferError::SameLocation(p) => TransferError::SameLocation(p.clone()),
            TransferError::AlreadyExists(p) => TransferError::AlreadyExists(p.clone()),
            TransferError::BoundExceeded(p) => TransferError::BoundExceeded(p.clone()),
            TransferError::Io(p, m) => TransferError::Io(p.clone(), m.clone()),
        }
    }
}

/// The mathematical value of a transfer's result: the number of files
/// transferred, or the error that stopped it.
pub open spec fn outcome_view(outcome: Result<u64, TransferError>) -> Result<nat, ErrorV> {
    match outcome {
        Ok(n) => Ok(n as nat),
        Err(e) => Err(e@),
    }
}

/// A copy of a transfer's result.
pub fn clone_outcome(outcome: &Result<u64, TransferError>) -> (out: Result<u64, TransferError>)
    ensures
        outcome_view(out) == outcome_view(*outcome),
{
    match outcome {
        Ok(n) => Ok(*n),
        Err(e) => Err(e.clone()),
    }
}

/// The mathematical value of an `Action`.
pub enum ActionV {
    Probe(PathV),
    Ask(PathV),
    CopyFile(PathV, PathV),
    RemoveFile(PathV),
    CreateDir(PathV),
    ListDir(PathV),
    RemoveDir(PathV),
    Finish(Result<nat, ErrorV>),
}

/// What the engine wants done next.
#[derive(Debug, PartialEq, Eq)]
pub enum Action {
    /// Find out what the path leads to; answered by `Event::Kind`.
    Probe(Path),
    /// Ask the user what to do about this source, whose destination is
    /// taken; answered by `Event::Answer`.
    Ask(Path),
    /// Copy the bytes of the first file to the second path; answered by
    /// `Event::Done` or `Event::Failed`.
    CopyFile(Path, Path),
    /// Delete the file; answered by `Event::Done` or `Event::Failed`.
    RemoveFile(Path),
    /// Create the directory; answered by `Event::Done` or `Event::Failed`.
    CreateDir(Path),
    /// Name the entries of the directory; answered by `Event::Entries` or
    /// `Event::Failed`.
    ListDir(Path),
    /// Delete the directory, which has to be empty; answered by
    /// `Event::Done` or `Event::Failed`.
    RemoveDir(Path),
    /// Nothing more: the transfer has ended with this result.
    Finish(Result<u64, TransferError>),
}

impl View for Action {
    type V = ActionV;

    open spec fn view(&self) -> ActionV {
        match self {
            Action::Probe(p) => ActionV::Probe(p@),
            Action::Ask(p) => ActionV::Ask(p@),
            Action::CopyFile(a, b) => ActionV::CopyFile(a@, b@),
            Action::RemoveFile(p) => ActionV::RemoveFile(p@),
            Action::CreateDir(p) => ActionV::CreateDir(p@),
            Action::ListDir(p) => ActionV::ListDir(p@),
            Action::RemoveDir(p) => ActionV::RemoveDir(p@),
            Action::Finish(r) => ActionV::Finish(outcome_view(*r)),
        }
    }
}

/// The mathematical value of an `Event`.
pub enum EventV {
    Kind(NodeKind),
    Answer(Seq<char>),
    Done,
    Failed(Seq<char>),
    Entries(Seq<Seq<char>>),
}

/// How the operation that the engine asked for went.
#[derive(Debug, PartialEq, Eq)]
pub enum Event {
    /// What the probed path leads to.
    Kind(NodeKind),
    /// The line that the user typed.
    Answer(String),
    /// The operation succeeded.
    Done,
    /// The operation failed, for this reason.
    Failed(String),
    /// The names of the entries of the listed directory.
    Entries(Vec<String>),
}

impl View for Event {
    type V = EventV;

    open spec fn view(&self) -> EventV {
        match self {
            Event::Kind(k) => EventV::Kind(*k),
            Event::Answer(line) => EventV::Answer(line@),
            Event::Done => EventV::Done,
            Event::Failed(m) => EventV::Failed(m@),
            Event::Entries(names) => EventV::Entries(names.deep_view()),
        }
    }
}

/// What the engine is waiting for.
#[derive(Clone, Copy, Debug, PartialEq, Eq, Structural)]
pub enum Phase {
    /// The kind of the top-level source.
    CheckSource,
    /// The kind of the top-level destination.
    CheckDestination,
    /// The kind of the current element, a child of the directory on top of
    /// the stack.
    Classify,
    /// Whether the destination name of the current file is taken.
    Collide,
    /// The user's choice.
    Asking,
    /// Whether the current numbered name is taken.
    Renaming,
    /// The copy of the current file.
    Copying,
    /// The removal of the current file, which has been copied.
    Removing,
    /// Whether the mirror of the current directory exists.
    Mirror,
    /// The creation of the mirror.
    Creating,
    /// The entries of the current directory.
    Listing,
    /// The removal of a directory whose entries have all been handled.
    RemovingDir,
    /// Nothing: the transfer is over.
    Finished,
}

/// The mathematical value of a `Frame`.
pub struct FrameV {
    pub source: PathV,
    pub target: PathV,
    pub names: Seq<Seq<char>>,
    pub next: nat,
}

/// A directory that is being walked.
#[derive(Debug, PartialEq, Eq)]
pub struct Frame {
    /// The directory.
    pub source: Path,
    /// Its mirror under the destination.
    pub target: Path,
    /// The names of its entries, as they were listed.
    pub names: Vec<String>,
    /// How many of them have been taken up.
    pub next: usize,
}

impl View for Frame {
    type V = FrameV;

    open spec fn view(&self) -> FrameV {
        FrameV {
            source: self.source@,
            target: self.target@,
            names: self.names.deep_view(),
            next: self.next as nat,
        }
    }
}

impl DeepView for Frame {
    type V = FrameV;

    open spec fn deep_view(&self) -> FrameV {
        self@
    }
}

/// What is to be transferred, where to, and how.
#[derive(Debug, PartialEq, Eq)]
pub struct TransferRequest {
    /// The file or directory to transfer.
    pub source: Path,
    /// The directory that receives it.
    pub destination: Path,
    /// Whether the source stays.
    pub mode: Mode,
    /// How collisions are handled.
    pub flags: Flags,
    /// The highest number that the search for a free name tries.
    pub bound: u64,
}

impl TransferRequest {
    /// A request with the customary search bound. Switches that accept and
    /// refuse collisions at once make no request.
    pub fn new(source: Path, destination: Path, mode: Mode, flags: Flags) -> (out: Result<
        TransferRequest,
        UsageError,
    >)
        ensures
            flags.auto_yes && flags.auto_no ==> out == Err::<TransferRequest, UsageError>(
                UsageError::ConflictingFlags,
            ),
            !(flags.auto_yes && flags.auto_no) ==> out == Ok::<TransferRequest, UsageError>(
                TransferRequest { source, destination, mode, flags, bound: DEFAULT_BOUND },
            ),
    {
        if flags.auto_yes && flags.auto_no {
            Err(UsageError::ConflictingFlags)
        } else {
            Ok(TransferRequest { source, destination, mode, flags, bound: DEFAULT_BOUND })
        }
    }

    /// The same request with another search bound.
    pub fn with_bound(self, bound: u64) -> (out: TransferRequest)
        ensures
            out == (TransferRequest { bound, ..self }),
    {
        TransferRequest {
            source: self.source,
            destination: self.destination,
            mode: self.mode,
            flags: self.flags,
            bound,
        }
    }
}

/// The mathematical value of an `Engine`.
pub struct EngineV {
    /// Whether the source stays.
    pub mode: Mode,
    /// How collisions are handled.
    pub flags: Flags,
    /// The highest number that the search for a free name tries.
    pub bound: nat,
    /// Whether the top-level source ends in a name.
    pub named: bool,
    /// The kind of the top-level source.
    pub top_kind: NodeKind,
    /// The current element.
    pub source: PathV,
    /// The directory that receives the current element.
    pub into: PathV,
    /// The path that the current element is written to.
    pub target: PathV,
    /// The name of the current element.
    pub name: Seq<char>,
    /// What the engine is waiting for.
    pub phase: Phase,
    /// The number of the candidate name being tried.
    pub counter: nat,
    /// The directories being walked, outermost first.
    pub stack: Seq<FrameV>,
    /// The files transferred so far.
    pub count: nat,
    /// The result, once the phase is `Finished`.
    pub outcome: Result<nat, ErrorV>,
}

impl EngineV {
    /// The state in which a transfer begins.
    pub open spec fn initial(
        source: PathV,
        destination: PathV,
        mode: Mode,
        flags: Flags,
        bound: nat,
    ) -> EngineV {
        let name = if source.parts.len() > 0 {
            source.parts.last()
        } else {
            Seq::empty()
        };
        EngineV {
            mode,
            flags,
            bound,
            named: source.has_name(),
            top_kind: NodeKind::Missing,
            source,
            into: destination,
            target: destination.child(name),
            name,
            phase: Phase::CheckSource,
            counter: FIRST_NUMBER as nat,
            stack: Seq::empty(),
            count: 0,
            outcome: Ok(0),
        }
    }

    /// The transfer ends with `outcome`.
    pub open spec fn finish(self, outcome: Result<nat, ErrorV>) -> EngineV {
        EngineV { phase: Phase::Finished, outcome, ..self }
    }

    /// The engine waits for something else.
    pub open spec fn enter(self, phase: Phase) -> EngineV {
        EngineV { phase, ..self }
    }

    /// One more file has been transferred.
    pub open spec fn counted(self) -> EngineV {
        EngineV { count: self.count + 1, ..self }
    }

    /// The current element is done with: the next entry of the innermost
    /// directory becomes the current element. A directory without entries
    /// left is done with too; when moving it is removed first.
    pub open spec fn advance(self) -> EngineV
        decreases self.stack.len(),
    {
        if self.stack.len() == 0 {
            self.finish(Ok(self.count))
        } else {
            let top = self.stack.last();
            if top.next < top.names.len() {
                let name = top.names[top.next as int];
                EngineV {
                    stack: self.stack.drop_last().push(FrameV { next: top.next + 1, ..top }),
                    source: top.source.child(name),
                    into: top.target,
                    target: top.target.child(name),
                    name,
                    phase: Phase::Classify,
                    ..self
                }
            } else {
                let rest = EngineV { stack: self.stack.drop_last(), ..self };
                if self.mode == Mode::Move {
                    EngineV { source: top.source, phase: Phase::RemovingDir, ..rest }
                } else {
                    rest.advance()
                }
            }
        }
    }

    /// The current element turned out to be of this kind.
    pub open spec fn classify(self, kind: NodeKind) -> EngineV {
        match kind {
            NodeKind::File => if self.source == self.target {
                self.finish(Err(ErrorV::SameLocation(self.source)))
            } else {
                self.enter(Phase::Collide)
            },
            NodeKind::Directory => self.enter(Phase::Mirror),
            _ => self.advance(),
        }
    }

    /// The fate of the current file has been decided.
    pub open spec fn apply(self, decision: Decision) -> EngineV {
        match decision {
            Decision::Proceed => self.enter(Phase::Copying),
            Decision::Skip => self.advance(),
            Decision::Rename => EngineV {
                counter: FIRST_NUMBER as nat,
                phase: Phase::Renaming,
                ..self
            },
        }
    }

    /// The state after `event`. An event that does not answer the pending
    /// action changes nothing.
    pub open spec fn step(self, event: EventV) -> EngineV {
        match self.phase {
            Phase::CheckSource => match event {
                EventV::Kind(kind) => if kind == NodeKind::Missing {
                    self.finish(Err(ErrorV::SourceMissing))
                } else {
                    EngineV { top_kind: kind, phase: Phase::CheckDestination, ..self }
                },
                _ => self,
            },
            Phase::CheckDestination => match event {
                EventV::Kind(kind) => match kind {
                    NodeKind::Directory => if !self.named {
                        self.finish(Err(ErrorV::SourceUnnamed))
                    } else if self.source == self.target {
                        self.finish(Err(ErrorV::SameLocation(self.source)))
                    } else {
                        self.classify(self.top_kind)
                    },
                    NodeKind::Missing => self.finish(Err(ErrorV::DestinationMissing)),
                    _ => self.finish(Err(ErrorV::DestinationNotDirectory)),
                },
                _ => self,
            },
            Phase::Classify => match event {
                EventV::Kind(kind) => self.classify(kind),
                _ => self,
            },
            Phase::Collide => match event {
                EventV::Kind(kind) => match ruling(kind != NodeKind::Missing, self.flags) {
                    Ruling::Decided(decision) => self.apply(decision),
                    Ruling::AlreadyExists => self.finish(Err(ErrorV::AlreadyExists(self.target))),
                    Ruling::AskUser => self.enter(Phase::Asking),
                },
                _ => self,
            },
            Phase::Asking => match event {
                EventV::Answer(line) => match answer_meaning(line) {
                    Some(decision) => self.apply(decision),
                    None => self,
                },
                _ => self,
            },
            Phase::Renaming => match event {
                EventV::Kind(kind) => if kind == NodeKind::Missing {
                    EngineV {
                        target: self.into.child(numbered(self.name, self.counter)),
                        phase: Phase::Copying,
                        ..self
                    }
                } else if self.counter >= self.bound {
                    self.finish(Err(ErrorV::BoundExceeded(self.target)))
                } else {
                    EngineV { counter: self.counter + 1, ..self }
                },
                _ => self,
            },
            Phase::Copying => match event {
                EventV::Done => if self.mode == Mode::Move {
                    self.enter(Phase::Removing)
                } else {
                    self.counted().advance()
                },
                EventV::Failed(reason) => self.finish(Err(ErrorV::Io(self.source, reason))),
                _ => self,
            },
            Phase::Removing => match event {
                EventV::Done => self.counted().advance(),
                EventV::Failed(reason) => self.finish(Err(ErrorV::Io(self.source, reason))),
                _ => self,
            },
            Phase::Mirror => match event {
                EventV::Kind(kind) => if kind == NodeKind::Missing {
                    self.enter(Phase::Creating)
                } else {
                    self.enter(Phase::Listing)
                },
                _ => self,
            },
            Phase::Creating => match event {
                EventV::Done => self.enter(Phase::Listing),
                EventV::Failed(reason) => self.finish(Err(ErrorV::Io(self.target, reason))),
                _ => self,
            },
            Phase::Listing => match event {
                EventV::Entries(names) => EngineV {
                    stack: self.stack.push(
                        FrameV { source: self.source, target: self.target, names, next: 0 },
                    ),
                    ..self
                }.advance(),
                EventV::Failed(reason) => self.finish(Err(ErrorV::Io(self.source, reason))),
                _ => self,
            },
            Phase::RemovingDir => match event {
                EventV::Done => self.advance(),
                EventV::Failed(reason) => self.finish(Err(ErrorV::Io(self.source, reason))),
                _ => self,
            },
            Phase::Finished => self,
        }
    }

    /// The action that the engine is waiting on.
    pub open spec fn pending(self) -> ActionV {
        match self.phase {
            Phase::CheckSource => ActionV::Probe(self.source),
            Phase::CheckDestination => ActionV::Probe(self.into),
            Phase::Classify => ActionV::Probe(self.source),
            Phase::Collide => ActionV::Probe(self.target),
            Phase::Asking => ActionV::Ask(self.source),
            Phase::Renaming => ActionV::Probe(self.into.child(numbered(self.name, self.counter))),
            Phase::Copying => ActionV::CopyFile(self.source, self.target),
            Phase::Removing => ActionV::RemoveFile(self.source),
            Phase::Mirror => ActionV::Probe(self.target),
            Phase::Creating => ActionV::CreateDir(self.target),
            Phase::Listing => ActionV::ListDir(self.source),
            Phase::RemovingDir => ActionV::RemoveDir(self.source),
            Phase::Finished => ActionV::Finish(self.outcome),
        }
    }
}

/// The state of a transfer between two filesystem operations.
#[derive(Debug)]
pub struct Engine {
    /// Whether the source stays.
    pub mode: Mode,
    /// How collisions are handled.
    pub flags: Flags,
    /// The highest number that the search for a free name tries.
    pub bound: u64,
    /// Whether the top-level source ends in a name.
    pub named: bool,
    /// The kind of the top-level source, once it is known.
    pub top_kind: NodeKind,
    /// The current element.
    pub source: Path,
    /// The directory that receives the current element.
    pub into: Path,
    /// The path that the current element is written to.
    pub target: Path,
    /// The name of the current element.
    pub name: String,
    /// What the engine is waiting for.
    pub phase: Phase,
    /// The number of the candidate name being tried.
    pub counter: u64,
    /// The directories being walked, outermost first.
    pub stack: Vec<Frame>,
    /// The files transferred so far.
    pub count: u64,
    /// The result, once the phase is `Finished`.
    pub outcome: Result<u64, TransferError>,
}

impl View for Engine {
    type V = EngineV;

    open spec fn view(&self) -> EngineV {
        EngineV {
            mode: self.mode,
            flags: self.flags,
            bound: self.bound as nat,
            named: self.named,
            top_kind: self.top_kind,
            source: self.source@,
            into: self.into@,
            target: self.target@,
            name: self.name@,
            phase: self.phase,
            counter: self.counter as nat,
            stack: self.stack.deep_view(),
            count: self.count as nat,
            outcome: outcome_view(self.outcome),
        }
    }
}

impl Engine {
    /// Sets up the transfer of `source` into the directory `destination`.
    /// Nothing has been asked of the filesystem yet: the first pending
    /// action is the probe of the source.
    pub fn start(request: TransferRequest) -> (engine: Engine)
        ensures
            engine@ == EngineV::initial(
                request.source@,
                request.destination@,
                request.mode,
                request.flags,
                request.bound as nat,
            ),
    {
        let named = request.source.has_name();
        let n = request.source.parts.len();
        let name = if n > 0 {
            assert(request.source.parts.deep_view().last() == request.source.parts[n - 1]@);
            request.source.parts[n - 1].clone()
        } else {
            assert(request.source.parts.deep_view().len() == 0);
            String::new()
        };
        let target = request.destination.join(name.as_str());
        let engine = Engine {
            mode: request.mode,
            flags: request.flags,
            bound: request.bound,
            named,
            top_kind: NodeKind::Missing,
            source: request.source,
            into: request.destination,
            target,
            name,
            phase: Phase::CheckSource,
            counter: FIRST_NUMBER,
            stack: Vec::new(),
            count: 0,
            outcome: Ok(0),
        };
        assert(engine@.stack =~= Seq::empty());
        engine
    }

    /// Whether the transfer is over.
    pub fn is_finished(&self) -> (done: bool)
        ensures
            done == (self.phase == Phase::Finished),
    {
        self.phase == Phase::Finished
    }

    /// The action that the engine is waiting on.
    pub fn pending(&self) -> (action: Action)
        ensures
            action@ == self@.pending(),
    {
        match self.phase {
            Phase::CheckSource => Action::Probe(self.source.clone()),
            Phase::CheckDestination => Action::Probe(self.into.clone()),
            Phase::Classify => Action::Probe(self.source.clone()),
            Phase::Collide => Action::Probe(self.target.clone()),
            Phase::Asking => Action::Ask(self.source.clone()),
            Phase::Renaming => {
                let candidate = numbered_name(self.name.as_str(), self.counter);
                Action::Probe(self.into.join(candidate.as_str()))
            },
            Phase::Copying => Action::CopyFile(self.source.clone(), self.target.clone()),
            Phase::Removing => Action::RemoveFile(self.source.clone()),
            Phase::Mirror => Action::Probe(self.target.clone()),
            Phase::Creating => Action::CreateDir(self.target.clone()),
            Phase::Listing => Action::ListDir(self.source.clone()),
            Phase::RemovingDir => Action::RemoveDir(self.source.clone()),
            Phase::Finished => Action::Finish(clone_outcome(&self.outcome)),
        }
    }

    fn finish(&mut self, outcome: Result<u64, TransferError>)
        ensures
            final(self)@ == old(self)@.finish(outcome_view(outcome)),
    {
        self.phase = Phase::Finished;
        self.outcome = outcome;
    }

    fn advance(&mut self)
        ensures
            final(self)@ == old(self)@.advance(),
    {
        loop
            invariant
                self@.advance() == old(self)@.advance(),
            decreases self.stack.len(),
        {
            let n = self.stack.len();
            if n == 0 {
                let count = self.count;
                self.finish(Ok(count));
                return ;
            }
            let ghost before = self@;
            let frame = self.stack.pop().unwrap();
            assert(frame@ == before.stack.last());
            assert(self@.stack =~= before.stack.drop_last());
            if frame.next < frame.names.len() {
                let name = frame.names[frame.next].clone();
                assert(name@ == frame@.names[frame.next as int]);
                self.source = frame.source.join(name.as_str());
                self.target = frame.target.join(name.as_str());
                self.into = frame.target.clone();
                self.name = name;
                self.phase = Phase::Classify;
                let moved = Frame {
                    source: frame.source,
                    target: frame.target,
                    names: frame.names,
                    next: frame.next + 1,
                };
                self.stack.push(moved);
                assert(self@.stack =~= before.stack.drop_last().push(
                    FrameV { next: before.stack.last().next + 1, ..before.stack.last() },
                ));
                return ;
            }
            if self.mode == Mode::Move {
                self.source = frame.source;
                self.phase = Phase::RemovingDir;
                return ;
            }
        }
    }

    fn classify(&mut self, kind: NodeKind)
        ensures
            final(self)@ == old(self)@.classify(kind),
    {
        match kind {
            NodeKind::File => {
                if self.source.same_as(&self.target) {
                    let at = self.source.clone();
                    self.finish(Err(TransferError::SameLocation(at)));
                } else {
                    self.phase = Phase::Collide;
                }
            },
            NodeKind::Directory => {
                self.phase = Phase::Mirror;
            },
            _ => {
                self.advance();
            },
        }
    }

    fn apply(&mut self, decision: Decision)
        ensures
            final(self)@ == old(self)@.apply(decision),
    {
        match decision {
            Decision::Proceed => {
                self.phase = Phase::Copying;
            },
            Decision::Skip => {
                self.advance();
            },
            Decision::Rename => {
                self.counter = FIRST_NUMBER;
                self.phase = Phase::Renaming;
            },
        }
    }

    fn fail(&mut self, at_target: bool, reason: String)
        ensures
            final(self)@ == old(self)@.finish(
                Err(
                    ErrorV::Io(
                        if at_target {
                            old(self)@.target
                        } else {
                            old(self)@.source
                        },
                        reason@,
                    ),
                ),
            ),
    {
        let at = if at_target {
            self.target.clone()
        } else {
            self.source.clone()
        };
        self.finish(Err(TransferError::Io(at, reason)));
    }

    fn on_kind(&mut self, kind: NodeKind)
        ensures
            final(self)@ == old(self)@.step(EventV::Kind(kind)),
    {
        match self.phase {
            Phase::CheckSource => {
                if kind == NodeKind::Missing {
                    self.finish(Err(TransferError::SourceMissing));
                } else {
                    self.top_kind = kind;
                    self.phase = Phase::CheckDestination;
                }
            },
            Phase::CheckDestination => match kind {
                NodeKind::Directory => {
                    if !self.named {
                        self.finish(Err(TransferError::SourceUnnamed));
                    } else if self.source.same_as(&self.target) {
                        let at = self.source.clone();
                        self.finish(Err(TransferError::SameLocation(at)));
                    } else {
                        let top = self.top_kind;
                        self.classify(top);
                    }
                },
                NodeKind::Missing => {
                    self.finish(Err(TransferError::DestinationMissing));
                },
                _ => {
                    self.finish(Err(TransferError::DestinationNotDirectory));
                },
            },
            Phase::Classify => {
                self.classify(kind);
            },
            Phase::Collide => self.on_collision(kind),
            Phase::Renaming => self.on_candidate(kind),
            Phase::Mirror => {
                if kind == NodeKind::Missing {
                    self.phase = Phase::Creating;
                } else {
                    self.phase = Phase::Listing;
                }
            },
            _ => {},
        }
    }

    fn on_collision(&mut self, kind: NodeKind)
        requires
            old(self).phase == Phase::Collide,
        ensures
            final(self)@ == old(self)@.step(EventV::Kind(kind)),
    {
        match decide(kind != NodeKind::Missing, self.flags) {
            Ruling::Decided(decision) => {
                self.apply(decision);
            },
            Ruling::AlreadyExists => {
                let at = self.target.clone();
                self.finish(Err(TransferError::AlreadyExists(at)));
            },
            Ruling::AskUser => {
                self.phase = Phase::Asking;
            },
        }
    }

    fn on_candidate(&mut self, kind: NodeKind)
        requires
            old(self).phase == Phase::Renaming,
        ensures
            final(self)@ == old(self)@.step(EventV::Kind(kind)),
    {
        if kind == NodeKind::Missing {
            let candidate = numbered_name(self.name.as_str(), self.counter);
            self.target = self.into.join(candidate.as_str());
            self.phase = Phase::Copying;
        } else if self.counter >= self.bound {
            let at = self.target.clone();
            self.finish(Err(TransferError::BoundExceeded(at)));
        } else {
            self.counter = self.counter + 1;
        }
    }

    fn on_answer(&mut self, line: String)
        ensures
            final(self)@ == old(self)@.step(EventV::Answer(line@)),
    {
        match self.phase {
            Phase::Asking => match interpret_answer(line.as_str()) {
                Some(decision) => {
                    self.apply(decision);
                },
                None => {},
            },
            _ => {},
        }
    }

    fn on_done(&mut self)
        requires
            old(self).count < u64::MAX,
        ensures
            final(self)@ == old(self)@.step(EventV::Done),
    {
        match self.phase {
            Phase::Copying => {
                if self.mode == Mode::Move {
                    self.phase = Phase::Removing;
                } else {
                    self.count = self.count + 1;
                    self.advance();
                }
            },
            Phase::Removing => {
                self.count = self.count + 1;
                self.advance();
            },
            Phase::Creating => {
                self.phase = Phase::Listing;
            },
            Phase::RemovingDir => {
                self.advance();
            },
            _ => {},
        }
    }

    fn on_failed(&mut self, reason: String)
        ensures
            final(self)@ == old(self)@.step(EventV::Failed(reason@)),
    {
        match self.phase {
            Phase::Copying | Phase::Removing | Phase::Listing | Phase::RemovingDir => {
                self.fail(false, reason);
            },
            Phase::Creating => {
                self.fail(true, reason);
            },
            _ => {},
        }
    }

    fn on_entries(&mut self, names: Vec<String>)
        ensures
            final(self)@ == old(self)@.step(EventV::Entries(names.deep_view())),
    {
        match self.phase {
            Phase::Listing => {
                let ghost before = self@;
                let ghost listed = names.deep_view();
                let frame = Frame {
                    source: self.source.clone(),
                    target: self.target.clone(),
                    names,
                    next: 0,
                };
                self.stack.push(frame);
                assert(self@.stack =~= before.stack.push(
                    FrameV {
                        source: before.source,
                        target: before.target,
                        names: listed,
                        next: 0,
                    },
                ));
                self.advance();
            },
            _ => {},
        }
    }

    /// Takes in how the pending action went and names the next one.
    ///
    /// The count of transferred files must not be at its limit.
    pub fn step(&mut self, event: Event) -> (next: Action)
        requires
            old(self).count < u64::MAX,
        ensures
            final(self)@ == old(self)@.step(event@),
            next@ == final(self)@.pending(),
    {
        match event {
            Event::Kind(kind) => self.on_kind(kind),
            Event::Answer(line) => self.on_answer(line),
            Event::Done => self.on_done(),
            Event::Failed(reason) => self.on_failed(reason),
            Event::Entries(names) => self.on_entries(names),
        }
        self.pending()
    }
}

} // verus!
