//! The link engine: jobs that move data and make links, phrased as requests
//! to a driver. A job performs no file system work itself; it asks for one
//! operation at a time and decides on the reply what to ask next.
use crate::errors::{
    result_view, Failure, Fault, FaultView, LinkError, LinkErrorView, MoveError, MoveErrorView,
    RelocateError, RelocateErrorView,
};
use crate::disk::{lemma_run, run, Disk};
use crate::paths::{join, joined};
use vstd::prelude::*;
use vstd::string::*;

verus! {

/// What stands at a path, links not followed.
#[derive(Clone, Copy, PartialEq, Eq, Debug, Structural)]
pub enum NodeKind {
    Missing,
    File,
    Dir,
    Link,
    /// Something that is neither file, directory nor link.
    Other,
}

/// One file system operation that a job, or a batch, asks its driver for.
#[derive(Debug)]
pub enum Request {
    /// Does the path lead to anything, links followed? Answered by
    /// [`Reply::Flag`].
    Exists(String),
    /// What stands at the path itself? Answered by [`Reply::Kind`].
    Inspect(String),
    /// Where does the link at the path lead? Answered by [`Reply::Target`].
    ReadLink(String),
    /// Is the path a directory? Answered by [`Reply::Flag`].
    IsDir(String),
    /// Make a link at `at` that leads to `to`. Answered by [`Reply::Done`],
    /// as are the requests below but the last.
    CreateLink { at: String, to: String },
    /// Rename `from` to `to`.
    Rename { from: String, to: String },
    /// Copy the directory `from` to `to`, then delete `from`.
    MoveDir { from: String, to: String },
    /// Copy the file `from` to `to`, then delete `from`.
    MoveFile { from: String, to: String },
    /// Make the directory and the missing ones above it.
    CreateDirAll(String),
    /// Remove the link at the path, not what it leads to.
    RemoveLink(String),
    /// Remove the empty directory at the path.
    RemoveDir(String),
    /// May this process make links at all? Answered by [`Reply::Checked`].
    CheckLinks,
}

/// A [`Request`] as plain values.
pub enum RequestView {
    Exists(Seq<char>),
    Inspect(Seq<char>),
    ReadLink(Seq<char>),
    IsDir(Seq<char>),
    CreateLink { at: Seq<char>, to: Seq<char> },
    Rename { from: Seq<char>, to: Seq<char> },
    MoveDir { from: Seq<char>, to: Seq<char> },
    MoveFile { from: Seq<char>, to: Seq<char> },
    CreateDirAll(Seq<char>),
    RemoveLink(Seq<char>),
    RemoveDir(Seq<char>),
    CheckLinks,
}

impl View for Request {
    type V = RequestView;

    open spec fn view(&self) -> RequestView {
        match *self {
            Request::Exists(path) => RequestView::Exists(path@),
            Request::Inspect(path) => RequestView::Inspect(path@),
            Request::ReadLink(path) => RequestView::ReadLink(path@),
            Request::IsDir(path) => RequestView::IsDir(path@),
            Request::CreateLink { at, to } => RequestView::CreateLink { at: at@, to: to@ },
            Request::Rename { from, to } => RequestView::Rename { from: from@, to: to@ },
            Request::MoveDir { from, to } => RequestView::MoveDir { from: from@, to: to@ },
            Request::MoveFile { from, to } => RequestView::MoveFile { from: from@, to: to@ },
            Request::CreateDirAll(path) => RequestView::CreateDirAll(path@),
            Request::RemoveLink(path) => RequestView::RemoveLink(path@),
            Request::RemoveDir(path) => RequestView::RemoveDir(path@),
            Request::CheckLinks => RequestView::CheckLinks,
        }
    }
}

/// What the driver found or did.
#[derive(Debug)]
pub enum Reply {
    Flag(bool),
    Kind(NodeKind),
    /// The path a link leads to, or `None` where it could not be read.
    Target(Option<String>),
    Done(Result<(), Failure>),
    Checked(Result<(), Fault>),
}

/// A [`Reply`] as plain values.
pub enum ReplyView {
    Flag(bool),
    Kind(NodeKind),
    Target(Option<Seq<char>>),
    Done(Result<(), Failure>),
    Checked(Result<(), FaultView>),
}

impl View for Reply {
    type V = ReplyView;

    open spec fn view(&self) -> ReplyView {
        match *self {
            Reply::Flag(flag) => ReplyView::Flag(flag),
            Reply::Kind(kind) => ReplyView::Kind(kind),
            Reply::Target(Some(target)) => ReplyView::Target(Some(target@)),
            Reply::Target(None) => ReplyView::Target(None),
            Reply::Done(done) => ReplyView::Done(done),
            Reply::Checked(checked) => ReplyView::Checked(result_view(checked)),
        }
    }
}

/// The request, if any, as plain values.
pub open spec fn request_view(r: Option<Request>) -> Option<RequestView> {
    match r {
        Some(request) => Some(request@),
        None => None,
    }
}

/// What a job is to bring about.
#[derive(Clone, Copy, PartialEq, Eq, Debug, Structural)]
pub enum Operation {
    /// A link at the source that leads to the target.
    Link,
    /// The data of the source at the target.
    Move,
    /// The data of the source at the target, and a link to it at the source.
    Relocate,
    /// The reverse of relocating: the link at the source gone, and the data
    /// of the target back at the source. Where the data cannot be moved back,
    /// the link is made again.
    Unlink,
}

/// Where a job stands: the request that it is waiting on.
#[derive(Clone, Copy, PartialEq, Eq, Debug, Structural)]
pub enum Phase {
    /// Relocating: what stands at the source?
    FindSource,
    /// Relocating: what stands at the target? Carries whether the source is
    /// a link.
    FindDestination(bool),
    /// Relocating, with a link at the source and something at the target:
    /// where does the link lead?
    CompareLink,
    /// Unlinking: remove the link.
    RemoveLink,
    /// Moving: rename.
    Rename,
    /// Moving, after the rename failed: is it a directory?
    ProbeDir,
    /// Moving, after the rename failed: copy the directory and delete it.
    MoveDir,
    /// Moving, after the rename failed: copy the file and delete it.
    MoveFile,
    /// Linking: does the target exist?
    FindTarget,
    /// Linking: make the link.
    CreateLink,
    /// Linking, after the attempt failed as carried: what stands at the
    /// source?
    InspectSource(Failure),
    /// Linking, after the attempt failed as carried, with a link at the
    /// source: where does it lead?
    ReadSource(Failure),
    /// Unlinking, after the move back failed as carried: make the link
    /// again, so that the data in storage stays within reach.
    Relink(Failure),
}

/// The state of a job.
#[derive(Debug)]
pub enum State {
    Pending(Phase),
    Finished(Result<(), Fault>),
}

/// A [`State`] as plain values.
pub enum StateView {
    Pending(Phase),
    Finished(Result<(), FaultView>),
}

impl View for State {
    type V = StateView;

    open spec fn view(&self) -> StateView {
        match *self {
            State::Pending(phase) => StateView::Pending(phase),
            State::Finished(result) => StateView::Finished(result_view(result)),
        }
    }
}

/// A job of the link engine. The driver asks it for the [`Linker::next`]
/// request, carries that out, and hands the reply to [`Linker::resume`],
/// until no request is left; [`Linker::outcome`] then tells how the job
/// ended.
#[derive(Debug)]
pub struct Linker {
    operation: Operation,
    source: String,
    target: String,
    state: State,
}

/// A [`Linker`] as plain values.
pub struct LinkerView {
    pub operation: Operation,
    pub source: Seq<char>,
    pub target: Seq<char>,
    pub state: StateView,
}

impl View for Linker {
    type V = LinkerView;

    closed spec fn view(&self) -> LinkerView {
        LinkerView {
            operation: self.operation,
            source: self.source@,
            target: self.target@,
            state: self.state@,
        }
    }
}

impl LinkerView {
    /// A job that has yet to ask its first request.
    pub open spec fn start(operation: Operation, source: Seq<char>, target: Seq<char>)
        -> LinkerView {
        LinkerView {
            operation,
            source,
            target,
            state: StateView::Pending(
                match operation {
                    Operation::Link => Phase::FindTarget,
                    Operation::Move => Phase::Rename,
                    Operation::Relocate => Phase::FindSource,
                    Operation::Unlink => Phase::RemoveLink,
                },
            ),
        }
    }

    /// The path that the job moves data from.
    pub open spec fn move_from(self) -> Seq<char> {
        if self.operation is Unlink {
            self.target
        } else {
            self.source
        }
    }

    /// The path that the job moves data to.
    pub open spec fn move_to(self) -> Seq<char> {
        if self.operation is Unlink {
            self.source
        } else {
            self.target
        }
    }

    /// The request that the job is waiting on, if it has not finished.
    pub open spec fn request(self) -> Option<RequestView> {
        match self.state {
            StateView::Finished(_) => None,
            StateView::Pending(phase) => Some(
                match phase {
                    Phase::FindSource => RequestView::Inspect(self.source),
                    Phase::FindDestination(_) => RequestView::Inspect(self.target),
                    Phase::CompareLink => RequestView::ReadLink(self.source),
                    Phase::RemoveLink => RequestView::RemoveLink(self.source),
                    Phase::Rename => RequestView::Rename {
                        from: self.move_from(),
                        to: self.move_to(),
                    },
                    Phase::ProbeDir => RequestView::IsDir(self.move_from()),
                    Phase::MoveDir => RequestView::MoveDir {
                        from: self.move_from(),
                        to: self.move_to(),
                    },
                    Phase::MoveFile => RequestView::MoveFile {
                        from: self.move_from(),
                        to: self.move_to(),
                    },
                    Phase::FindTarget => RequestView::Exists(self.target),
                    Phase::CreateLink => RequestView::CreateLink {
                        at: self.source,
                        to: self.target,
                    },
                    Phase::InspectSource(_) => RequestView::Inspect(self.source),
                    Phase::ReadSource(_) => RequestView::ReadLink(self.source),
                    Phase::Relink(_) => RequestView::CreateLink {
                        at: self.source,
                        to: self.target,
                    },
                },
            ),
        }
    }

    /// How the job ended, if it has finished.
    pub open spec fn outcome(self) -> Option<Result<(), FaultView>> {
        match self.state {
            StateView::Finished(result) => Some(result),
            StateView::Pending(_) => None,
        }
    }

    /// The state of the job once its data has been moved: a relocation goes
    /// on to make the link, and the other jobs are done.
    pub open spec fn after_move(self) -> StateView {
        if self.operation is Relocate {
            StateView::Pending(Phase::FindTarget)
        } else {
            StateView::Finished(Ok(()))
        }
    }

    /// The state of the job once its data could not be moved, the copy
    /// having failed as `failure` says: unlinking goes on to make the link
    /// again, and the other jobs end with the failure.
    pub open spec fn after_failed_move(self, failure: Failure) -> StateView {
        if self.operation is Unlink {
            StateView::Pending(Phase::Relink(failure))
        } else {
            StateView::Finished(Err(self.move_failure(failure)))
        }
    }

    /// The fault of a job whose data could not be moved.
    pub open spec fn move_failure(self, failure: Failure) -> FaultView {
        FaultView::Move(MoveErrorView::FailedToMove(self.move_from(), self.move_to(), failure))
    }

    /// The state that the reply to the request of `phase` leads to. A reply
    /// of a kind that does not answer the request ends the job.
    pub open spec fn next_state(self, phase: Phase, reply: ReplyView) -> StateView {
        match (phase, reply) {
            (Phase::FindSource, ReplyView::Kind(kind)) => if kind is Missing {
                StateView::Finished(
                    Err(FaultView::Relocate(RelocateErrorView::SourceNotFound(self.source))),
                )
            } else {
                StateView::Pending(Phase::FindDestination(kind is Link))
            },
            (Phase::FindDestination(linked), ReplyView::Kind(kind)) => if kind is Missing {
                StateView::Pending(Phase::Rename)
            } else if linked {
                StateView::Pending(Phase::CompareLink)
            } else {
                StateView::Finished(
                    Err(FaultView::Relocate(RelocateErrorView::DestinationExists(self.target))),
                )
            },
            (Phase::CompareLink, ReplyView::Target(found)) => if found == Some(self.target) {
                StateView::Finished(Ok(()))
            } else {
                StateView::Finished(
                    Err(FaultView::Relocate(RelocateErrorView::DestinationExists(self.target))),
                )
            },
            (Phase::RemoveLink, ReplyView::Done(done)) => match done {
                Ok(()) => StateView::Pending(Phase::Rename),
                Err(failure) => StateView::Finished(Err(FaultView::Io(failure))),
            },
            (Phase::Rename, ReplyView::Done(done)) => match done {
                Ok(()) => self.after_move(),
                Err(_) => StateView::Pending(Phase::ProbeDir),
            },
            (Phase::ProbeDir, ReplyView::Flag(is_dir)) => if is_dir {
                StateView::Pending(Phase::MoveDir)
            } else {
                StateView::Pending(Phase::MoveFile)
            },
            (Phase::MoveDir, ReplyView::Done(done)) | (Phase::MoveFile, ReplyView::Done(done)) => {
                match done {
                    Ok(()) => self.after_move(),
                    Err(failure) => self.after_failed_move(failure),
                }
            },
            (Phase::Relink(failure), ReplyView::Done(_)) => StateView::Finished(
                Err(self.move_failure(failure)),
            ),
            (Phase::FindTarget, ReplyView::Flag(exists)) => if exists {
                StateView::Pending(Phase::CreateLink)
            } else {
                StateView::Finished(
                    Err(FaultView::Link(LinkErrorView::DestinationDoesNotExist(self.target))),
                )
            },
            (Phase::CreateLink, ReplyView::Done(done)) => match done {
                Ok(()) => StateView::Finished(Ok(())),
                Err(failure) => StateView::Pending(Phase::InspectSource(failure)),
            },
            (Phase::InspectSource(failure), ReplyView::Kind(kind)) => match kind {
                NodeKind::Link => StateView::Pending(Phase::ReadSource(failure)),
                NodeKind::File | NodeKind::Dir => StateView::Finished(
                    Err(FaultView::Link(LinkErrorView::SourceExists(self.source))),
                ),
                _ => StateView::Finished(Err(FaultView::Link(LinkErrorView::Io(failure)))),
            },
            (Phase::ReadSource(failure), ReplyView::Target(found)) => match found {
                Some(target) => if target == self.target {
                    StateView::Finished(Ok(()))
                } else {
                    StateView::Finished(
                        Err(FaultView::Link(LinkErrorView::AlreadyLinked(target))),
                    )
                },
                None => StateView::Finished(Err(FaultView::Link(LinkErrorView::Io(failure)))),
            },
            _ => StateView::Finished(Err(FaultView::Protocol)),
        }
    }

    /// The job after the reply to its request. A finished job stays as it is.
    pub open spec fn resumed(self, reply: ReplyView) -> LinkerView {
        match self.state {
            StateView::Finished(_) => self,
            StateView::Pending(phase) => LinkerView {
                operation: self.operation,
                source: self.source,
                target: self.target,
                state: self.next_state(phase, reply),
            },
        }
    }

    /// A bound on the requests that the job has yet to ask.
    pub open spec fn steps_left(self) -> nat {
        match self.state {
            StateView::Finished(_) => 0,
            StateView::Pending(phase) => match phase {
                Phase::ReadSource(_) => 1,
                Phase::CompareLink => 1,
                Phase::Relink(_) => 1,
                Phase::InspectSource(_) => 2,
                Phase::CreateLink => 3,
                Phase::FindTarget => 4,
                Phase::MoveDir => 5,
                Phase::MoveFile => 5,
                Phase::ProbeDir => 6,
                Phase::Rename => 7,
                Phase::RemoveLink => 8,
                Phase::FindDestination(_) => 8,
                Phase::FindSource => 9,
            },
        }
    }
}

/// Every reply brings a job that has not finished nearer to its end, and
/// leaves what the job is about as it was.
pub proof fn lemma_job_resumed(job: LinkerView, reply: ReplyView)
    requires
        job.request().is_some(),
    ensures
        job.resumed(reply).steps_left() < job.steps_left(),
        job.resumed(reply).operation == job.operation,
        job.resumed(reply).source == job.source,
        job.resumed(reply).target == job.target,
{
}

impl Linker {
    fn start(operation: Operation, source: String, target: String) -> (r: Linker)
        ensures
            r@ == LinkerView::start(operation, source@, target@),
            forall|disk: Disk| #[trigger] run(r@, disk) == disk.perform(operation, source@, target@),
    {
        proof {
            assert forall|disk: Disk| #[trigger]
                run(LinkerView::start(operation, source@, target@), disk) == disk.perform(
                    operation,
                    source@,
                    target@,
                ) by {
                lemma_run(operation, source@, target@, disk);
            }
        }
        let phase = match operation {
            Operation::Link => Phase::FindTarget,
            Operation::Move => Phase::Rename,
            Operation::Relocate => Phase::FindSource,
            Operation::Unlink => Phase::RemoveLink,
        };
        Linker { operation, source, target, state: State::Pending(phase) }
    }

    /// The job that makes a link at `from` that leads to `to`. Something must
    /// exist at `to`. Where the link cannot be made because `from` is a link to
    /// `to` already, the job succeeds all the same.
    pub fn symlink(from: String, to: String) -> (r: Linker)
        ensures
            r@ == LinkerView::start(Operation::Link, from@, to@),
            forall|disk: Disk| #[trigger] run(r@, disk) == disk.link(from@, to@),
    {
        Linker::start(Operation::Link, from, to)
    }

    /// The job that moves `src` to `dest`: by renaming it or, where that
    /// fails, by copying it and deleting what was copied.
    pub fn move_item(src: String, dest: String) -> (r: Linker)
        ensures
            r@ == LinkerView::start(Operation::Move, src@, dest@),
            forall|disk: Disk| #[trigger] run(r@, disk) == disk.move_item(src@, dest@),
    {
        Linker::start(Operation::Move, src, dest)
    }

    /// The job that moves `source` to `destination` and makes a link to it at
    /// `source`. Nothing is overwritten: where something stands at
    /// `destination` the job fails, unless `source` is a link to it already.
    pub fn relocate_and_link(source: String, destination: String) -> (r: Linker)
        ensures
            r@ == LinkerView::start(Operation::Relocate, source@, destination@),
            forall|disk: Disk| #[trigger] run(r@, disk) == disk.relocate(source@, destination@),
    {
        Linker::start(Operation::Relocate, source, destination)
    }

    /// The job that removes the link at `link` and moves `stored` back there.
    /// Where the data cannot be moved back, the job makes the link again
    /// before it fails.
    pub fn unlink(link: String, stored: String) -> (r: Linker)
        ensures
            r@ == LinkerView::start(Operation::Unlink, link@, stored@),
            forall|disk: Disk| #[trigger] run(r@, disk) == disk.unlink(link@, stored@),
    {
        Linker::start(Operation::Unlink, link, stored)
    }

    /// The job that tells whether this process may make links: it links a
    /// path inside the scratch directory `src_dir` to the scratch directory
    /// `dest_dir`.
    pub fn check_reparse_privilege(src_dir: &str, dest_dir: String) -> (r: Linker)
        ensures
            r@ == LinkerView::start(Operation::Link, joined(src_dir@, "src"@), dest_dir@),
            forall|disk: Disk| #[trigger]
                run(r@, disk) == disk.link(joined(src_dir@, "src"@), dest_dir@),
    {
        Linker::symlink(join(src_dir, "src"), dest_dir)
    }

    fn move_from(&self) -> (r: String)
        ensures
            r@ == self@.move_from(),
    {
        match self.operation {
            Operation::Unlink => self.target.clone(),
            _ => self.source.clone(),
        }
    }

    fn move_to(&self) -> (r: String)
        ensures
            r@ == self@.move_to(),
    {
        match self.operation {
            Operation::Unlink => self.source.clone(),
            _ => self.target.clone(),
        }
    }

    /// The request to carry out next, or `None` once the job has finished.
    pub fn next(&self) -> (r: Option<Request>)
        ensures
            request_view(r) == self@.request(),
    {
        match &self.state {
            State::Finished(_) => None,
            State::Pending(phase) => Some(
                match phase {
                    Phase::FindSource => Request::Inspect(self.source.clone()),
                    Phase::FindDestination(_) => Request::Inspect(self.target.clone()),
                    Phase::CompareLink => Request::ReadLink(self.source.clone()),
                    Phase::RemoveLink => Request::RemoveLink(self.source.clone()),
                    Phase::Rename => Request::Rename { from: self.move_from(), to: self.move_to() },
                    Phase::ProbeDir => Request::IsDir(self.move_from()),
                    Phase::MoveDir => Request::MoveDir {
                        from: self.move_from(),
                        to: self.move_to(),
                    },
                    Phase::MoveFile => Request::MoveFile {
                        from: self.move_from(),
                        to: self.move_to(),
                    },
                    Phase::FindTarget => Request::Exists(self.target.clone()),
                    Phase::CreateLink => Request::CreateLink {
                        at: self.source.clone(),
                        to: self.target.clone(),
                    },
                    Phase::InspectSource(_) => Request::Inspect(self.source.clone()),
                    Phase::ReadSource(_) => Request::ReadLink(self.source.clone()),
                    Phase::Relink(_) => Request::CreateLink {
                        at: self.source.clone(),
                        to: self.target.clone(),
                    },
                },
            ),
        }
    }

    /// Whether the job has finished.
    pub fn is_finished(&self) -> (r: bool)
        ensures
            r == self@.request().is_none(),
            r == self@.outcome().is_some(),
    {
        match &self.state {
            State::Finished(_) => true,
            State::Pending(_) => false,
        }
    }

    /// How the job ended, or `None` while it has not finished.
    pub fn outcome(self) -> (r: Option<Result<(), Fault>>)
        ensures
            match r {
                Some(result) => self@.outcome() == Some(result_view(result)),
                None => self@.outcome().is_none(),
            },
    {
        match self.state {
            State::Finished(result) => Some(result),
            State::Pending(_) => None,
        }
    }

    fn after_move(&self) -> (r: State)
        ensures
            r@ == self@.after_move(),
    {
        match self.operation {
            Operation::Relocate => State::Pending(Phase::FindTarget),
            _ => State::Finished(Ok(())),
        }
    }

    fn move_failure(&self, failure: Failure) -> (r: Fault)
        ensures
            r@ == self@.move_failure(failure),
    {
        Fault::Move(MoveError::FailedToMove(self.move_from(), self.move_to(), failure))
    }

    fn after_failed_move(&self, failure: Failure) -> (r: State)
        ensures
            r@ == self@.after_failed_move(failure),
    {
        match self.operation {
            Operation::Unlink => State::Pending(Phase::Relink(failure)),
            _ => State::Finished(Err(self.move_failure(failure))),
        }
    }

    fn next_state(&self, phase: Phase, reply: Reply) -> (r: State)
        ensures
            r@ == self@.next_state(phase, reply@),
    {
        match (phase, reply) {
            (Phase::FindSource, Reply::Kind(kind)) => match kind {
                NodeKind::Missing => State::Finished(
                    Err(Fault::Relocate(RelocateError::SourceNotFound(self.source.clone()))),
                ),
                NodeKind::Link => State::Pending(Phase::FindDestination(true)),
                _ => State::Pending(Phase::FindDestination(false)),
            },
            (Phase::FindDestination(linked), Reply::Kind(kind)) => match kind {
                NodeKind::Missing => State::Pending(Phase::Rename),
                _ => if linked {
                    State::Pending(Phase::CompareLink)
                } else {
                    State::Finished(
                        Err(Fault::Relocate(RelocateError::DestinationExists(self.target.clone()))),
                    )
                },
            },
            (Phase::CompareLink, Reply::Target(found)) => {
                let same = match found {
                    Some(target) => target == self.target,
                    None => false,
                };
                if same {
                    State::Finished(Ok(()))
                } else {
                    State::Finished(
                        Err(Fault::Relocate(RelocateError::DestinationExists(self.target.clone()))),
                    )
                }
            },
            (Phase::RemoveLink, Reply::Done(done)) => match done {
                Ok(()) => State::Pending(Phase::Rename),
                Err(failure) => State::Finished(Err(Fault::Io(failure))),
            },
            (Phase::Rename, Reply::Done(done)) => match done {
                Ok(()) => self.after_move(),
                Err(_) => State::Pending(Phase::ProbeDir),
            },
            (Phase::ProbeDir, Reply::Flag(is_dir)) => if is_dir {
                State::Pending(Phase::MoveDir)
            } else {
                State::Pending(Phase::MoveFile)
            },
            (Phase::MoveDir, Reply::Done(done)) | (Phase::MoveFile, Reply::Done(done)) => {
                match done {
                    Ok(()) => self.after_move(),
                    Err(failure) => self.after_failed_move(failure),
                }
            },
            (Phase::Relink(failure), Reply::Done(_)) => State::Finished(
                Err(self.move_failure(failure)),
            ),
            (Phase::FindTarget, Reply::Flag(exists)) => if exists {
                State::Pending(Phase::CreateLink)
            } else {
                State::Finished(
                    Err(Fault::Link(LinkError::DestinationDoesNotExist(self.target.clone()))),
                )
            },
            (Phase::CreateLink, Reply::Done(done)) => match done {
                Ok(()) => State::Finished(Ok(())),
                Err(failure) => State::Pending(Phase::InspectSource(failure)),
            },
            (Phase::InspectSource(failure), Reply::Kind(kind)) => match kind {
                NodeKind::Link => State::Pending(Phase::ReadSource(failure)),
                NodeKind::File | NodeKind::Dir => State::Finished(
                    Err(Fault::Link(LinkError::SourceExists(self.source.clone()))),
                ),
                _ => State::Finished(Err(Fault::Link(LinkError::Io(failure)))),
            },
            (Phase::ReadSource(failure), Reply::Target(found)) => match found {
                Some(target) => if target == self.target {
                    State::Finished(Ok(()))
                } else {
                    State::Finished(Err(Fault::Link(LinkError::AlreadyLinked(target))))
                },
                None => State::Finished(Err(Fault::Link(LinkError::Io(failure)))),
            },
            _ => State::Finished(Err(Fault::Protocol)),
        }
    }

    /// Takes the reply to the request that [`Linker::next`] gave. A reply of a
    /// kind that does not answer that request ends the job with
    /// [`Fault::Protocol`]; a finished job stays as it is.
    pub fn resume(&mut self, reply: Reply)
        ensures
            final(self)@ == old(self)@.resumed(reply@),
            final(self)@.steps_left() < old(self)@.steps_left() || old(self)@.request().is_none(),
    {
        let phase = match &self.state {
            State::Finished(_) => {
                return ;
            },
            State::Pending(phase) => *phase,
        };
        let next = self.next_state(phase, reply);
        self.state = next;
    }
}

} // verus!
