//! A model of the file system that the link engine works on, and what the
//! engine's jobs do to it.
//!
//! The model keeps one node for each path and knows nothing of the
//! directories above a path. Asked whether a path exists, it follows a link
//! one step and no further; asked whether a path is a directory, it does not
//! follow links.
use crate::errors::{
    Failure, FailureKind, FaultView, LinkErrorView, MoveErrorView, RelocateErrorView,
};
use crate::batch::{lemma_resumed, BatchView, OutcomeView};
use crate::linker::{LinkerView, NodeKind, Operation, Phase, ReplyView, RequestView, StateView};
use vstd::prelude::*;

verus! {

/// What stands at a path. The number of a file or directory stands for its
/// contents; an empty directory has the number 0.
pub enum Node {
    File(nat),
    Dir(nat),
    Link(Seq<char>),
    Other,
}

/// A file system.
pub struct Disk {
    pub nodes: Map<Seq<char>, Node>,
    /// Whether links can be made at all.
    pub may_link: bool,
    /// Whether a rename works; it does not across devices.
    pub one_device: bool,
}

/// The failure of the given kind, as the model reports it.
pub open spec fn failure(kind: FailureKind) -> Failure {
    Failure { kind, code: 0 }
}

impl Disk {
    /// Something stands at `path`.
    pub open spec fn present(self, path: Seq<char>) -> bool {
        self.nodes.contains_key(path)
    }

    /// What stands at `path`.
    pub open spec fn kind(self, path: Seq<char>) -> NodeKind {
        if !self.present(path) {
            NodeKind::Missing
        } else {
            match self.nodes[path] {
                Node::File(_) => NodeKind::File,
                Node::Dir(_) => NodeKind::Dir,
                Node::Link(_) => NodeKind::Link,
                Node::Other => NodeKind::Other,
            }
        }
    }

    /// `path` is a link that leads to `target`.
    pub open spec fn leads(self, path: Seq<char>, target: Seq<char>) -> bool {
        self.present(path) && self.nodes[path] == Node::Link(target)
    }

    /// `path` leads to something: a link does where something stands at the
    /// path it leads to.
    pub open spec fn reachable(self, path: Seq<char>) -> bool {
        self.present(path) && match self.nodes[path] {
            Node::Link(target) => self.present(target),
            _ => true,
        }
    }

    /// The disk with `node` at `path`.
    pub open spec fn with(self, path: Seq<char>, node: Node) -> Disk {
        Disk {
            nodes: self.nodes.insert(path, node),
            may_link: self.may_link,
            one_device: self.one_device,
        }
    }

    /// The disk with nothing at `path`.
    pub open spec fn without(self, path: Seq<char>) -> Disk {
        Disk {
            nodes: self.nodes.remove(path),
            may_link: self.may_link,
            one_device: self.one_device,
        }
    }

    /// The disk with what stood at `from` standing at `to` instead.
    pub open spec fn moved(self, from: Seq<char>, to: Seq<char>) -> Disk {
        self.without(from).with(to, self.nodes[from])
    }

    /// What making the directory `path` comes to: an empty directory is made
    /// where nothing stands, and a directory that stands there is left as it
    /// is.
    pub open spec fn create_dir_all(self, path: Seq<char>) -> (Disk, Result<(), Failure>) {
        if !self.present(path) {
            (self.with(path, Node::Dir(0)), Ok(()))
        } else if self.kind(path) is Dir {
            (self, Ok(()))
        } else {
            (self, Err(failure(FailureKind::AlreadyExists)))
        }
    }

    /// What removing the directory `path` comes to: only an empty directory
    /// is removed.
    pub open spec fn remove_dir(self, path: Seq<char>) -> (Disk, Result<(), Failure>) {
        if self.present(path) && self.nodes[path] == Node::Dir(0) {
            (self.without(path), Ok(()))
        } else if self.present(path) {
            (self, Err(failure(FailureKind::Other)))
        } else {
            (self, Err(failure(FailureKind::NotFound)))
        }
    }

    /// The disk after the operation `request`, and the reply to it.
    pub open spec fn respond(self, request: RequestView) -> (Disk, ReplyView) {
        match request {
            RequestView::Exists(path) => (self, ReplyView::Flag(self.reachable(path))),
            RequestView::Inspect(path) => (self, ReplyView::Kind(self.kind(path))),
            RequestView::ReadLink(path) => (
                self,
                ReplyView::Target(
                    if self.present(path) {
                        match self.nodes[path] {
                            Node::Link(target) => Some(target),
                            _ => None,
                        }
                    } else {
                        None
                    },
                ),
            ),
            RequestView::IsDir(path) => (self, ReplyView::Flag(self.kind(path) is Dir)),
            RequestView::CreateLink { at, to } => if !self.may_link || self.present(at) {
                (self, ReplyView::Done(Err(self.link_refusal())))
            } else {
                (self.with(at, Node::Link(to)), ReplyView::Done(Ok(())))
            },
            RequestView::Rename { from, to } => if !self.present(from) {
                (self, ReplyView::Done(Err(failure(FailureKind::NotFound))))
            } else if !self.one_device {
                (self, ReplyView::Done(Err(failure(FailureKind::Other))))
            } else {
                (self.moved(from, to), ReplyView::Done(Ok(())))
            },
            RequestView::MoveDir { from, to } => if self.kind(from) is Dir && !self.present(to) {
                (self.moved(from, to), ReplyView::Done(Ok(())))
            } else {
                (self, ReplyView::Done(Err(failure(FailureKind::Other))))
            },
            RequestView::MoveFile { from, to } => if self.present(from) && !(self.kind(from) is Dir)
                && !self.present(to) {
                (self.moved(from, to), ReplyView::Done(Ok(())))
            } else {
                (self, ReplyView::Done(Err(failure(FailureKind::Other))))
            },
            RequestView::CreateDirAll(path) => (
                self.create_dir_all(path).0,
                ReplyView::Done(self.create_dir_all(path).1),
            ),
            RequestView::RemoveLink(path) => if self.kind(path) is Link {
                (self.without(path), ReplyView::Done(Ok(())))
            } else if self.present(path) {
                (self, ReplyView::Done(Err(failure(FailureKind::Other))))
            } else {
                (self, ReplyView::Done(Err(failure(FailureKind::NotFound))))
            },
            RequestView::RemoveDir(path) => (
                self.remove_dir(path).0,
                ReplyView::Done(self.remove_dir(path).1),
            ),
            RequestView::CheckLinks => (
                self,
                ReplyView::Checked(
                    if self.may_link {
                        Ok(())
                    } else {
                        Err(
                            FaultView::Link(
                                LinkErrorView::Io(failure(FailureKind::PermissionDenied)),
                            ),
                        )
                    },
                ),
            ),
        }
    }

    /// The failure that an attempt to make a link ends in, where it fails:
    /// links may not be made, or something stands in the way.
    pub open spec fn link_refusal(self) -> Failure {
        if self.may_link {
            failure(FailureKind::AlreadyExists)
        } else {
            failure(FailureKind::PermissionDenied)
        }
    }

    /// What making a link at `source` that leads to `target` comes to: the
    /// disk afterwards, and the result.
    pub open spec fn link(self, source: Seq<char>, target: Seq<char>) -> (
        Disk,
        Result<(), FaultView>,
    ) {
        if !self.reachable(target) {
            (self, Err(FaultView::Link(LinkErrorView::DestinationDoesNotExist(target))))
        } else if self.may_link && !self.present(source) {
            (self.with(source, Node::Link(target)), Ok(()))
        } else {
            (
                self,
                match self.kind(source) {
                    NodeKind::Link => if self.leads(source, target) {
                        Ok(())
                    } else {
                        Err(FaultView::Link(LinkErrorView::AlreadyLinked(self.nodes[source]->Link_0)))
                    },
                    NodeKind::File | NodeKind::Dir => Err(
                        FaultView::Link(LinkErrorView::SourceExists(source)),
                    ),
                    NodeKind::Other | NodeKind::Missing => Err(
                        FaultView::Link(LinkErrorView::Io(self.link_refusal())),
                    ),
                },
            )
        }
    }

    /// What moving `from` to `to` comes to. A rename replaces what stood at
    /// `to`; a copy does not.
    pub open spec fn move_item(self, from: Seq<char>, to: Seq<char>) -> (
        Disk,
        Result<(), FaultView>,
    ) {
        if self.present(from) && (self.one_device || !self.present(to)) {
            (self.moved(from, to), Ok(()))
        } else {
            (
                self,
                Err(
                    FaultView::Move(
                        MoveErrorView::FailedToMove(from, to, failure(FailureKind::Other)),
                    ),
                ),
            )
        }
    }

    /// What relocating `source` to `destination` comes to.
    pub open spec fn relocate(self, source: Seq<char>, destination: Seq<char>) -> (
        Disk,
        Result<(), FaultView>,
    ) {
        if !self.present(source) {
            (self, Err(FaultView::Relocate(RelocateErrorView::SourceNotFound(source))))
        } else if self.present(destination) {
            if self.leads(source, destination) {
                (self, Ok(()))
            } else {
                (self, Err(FaultView::Relocate(RelocateErrorView::DestinationExists(destination))))
            }
        } else {
            let (moved, result) = self.move_item(source, destination);
            if result is Ok {
                moved.link(source, destination)
            } else {
                (moved, result)
            }
        }
    }

    /// What removing the link at `link` and moving `stored` back there comes
    /// to. Where the data cannot be moved back, the link is made again, if
    /// links can be made.
    pub open spec fn unlink(self, link: Seq<char>, stored: Seq<char>) -> (
        Disk,
        Result<(), FaultView>,
    ) {
        if self.kind(link) is Link {
            let (moved, result) = self.without(link).move_item(stored, link);
            if result is Ok {
                (moved, result)
            } else if self.may_link {
                (self.with(link, Node::Link(stored)), result)
            } else {
                (moved, result)
            }
        } else if self.present(link) {
            (self, Err(FaultView::Io(failure(FailureKind::Other))))
        } else {
            (self, Err(FaultView::Io(failure(FailureKind::NotFound))))
        }
    }

    /// What the job for `operation` on the two paths comes to.
    pub open spec fn perform(self, operation: Operation, source: Seq<char>, target: Seq<char>) -> (
        Disk,
        Result<(), FaultView>,
    ) {
        match operation {
            Operation::Link => self.link(source, target),
            Operation::Move => self.move_item(source, target),
            Operation::Relocate => self.relocate(source, target),
            Operation::Unlink => self.unlink(source, target),
        }
    }
}

/// The disk after `job` has been driven to its end on `disk`, every request
/// answered as the model answers it, and how the job ended.
pub open spec fn run(job: LinkerView, disk: Disk) -> (Disk, Result<(), FaultView>)
    decreases job.steps_left(),
{
    match job.state {
        StateView::Finished(result) => (disk, result),
        StateView::Pending(_) => {
            let (next, reply) = disk.respond(job.request().unwrap());
            run(job.resumed(reply), next)
        },
    }
}

/// The disk after `batch` has been driven to its end on `disk`, every
/// request answered as the model answers it, and how the batch ended.
pub open spec fn run_batch(batch: BatchView, disk: Disk) -> (
    Disk,
    Result<Seq<OutcomeView>, FaultView>,
)
    decreases batch.class(), batch.entries_left(), batch.saves_left(), batch.job_steps(),
    when batch.well_formed()
{
    match batch.request() {
        None => (disk, batch.outcome().unwrap()),
        Some(request) => {
            let (next, reply) = disk.respond(request);
            proof {
                lemma_resumed(batch, reply);
            }
            run_batch(batch.resumed(reply), next)
        },
    }
}

proof fn lemma_run_link_part(job: LinkerView, disk: Disk)
    requires
        job.state == StateView::Pending(Phase::FindTarget),
        job.operation is Link || job.operation is Relocate,
    ensures
        run(job, disk) == disk.link(job.source, job.target),
{
    reveal_with_fuel(run, 5);
}

proof fn lemma_run_move_part(job: LinkerView, disk: Disk)
    requires
        job.state == StateView::Pending(Phase::Rename),
    ensures
        run(job, disk) == if disk.move_item(job.move_from(), job.move_to()).1 is Ok {
            if job.operation is Relocate {
                disk.move_item(job.move_from(), job.move_to()).0.link(job.source, job.target)
            } else {
                disk.move_item(job.move_from(), job.move_to())
            }
        } else if job.operation is Unlink {
            (
                disk.respond(RequestView::CreateLink { at: job.source, to: job.target }).0,
                disk.move_item(job.move_from(), job.move_to()).1,
            )
        } else {
            disk.move_item(job.move_from(), job.move_to())
        },
{
    let from = job.move_from();
    let to = job.move_to();
    let linking = LinkerView {
        operation: job.operation,
        source: job.source,
        target: job.target,
        state: StateView::Pending(Phase::FindTarget),
    };
    if job.operation is Relocate {
        lemma_run_link_part(linking, disk.moved(from, to));
    }
    reveal_with_fuel(run, 5);
}

/// Driving a job to its end on the model comes to what [`Disk::perform`]
/// says of its operation.
pub proof fn lemma_run(operation: Operation, source: Seq<char>, target: Seq<char>, disk: Disk)
    ensures
        run(LinkerView::start(operation, source, target), disk) == disk.perform(
            operation,
            source,
            target,
        ),
{
    let job = LinkerView::start(operation, source, target);
    match operation {
        Operation::Link => {
            lemma_run_link_part(job, disk);
        },
        Operation::Move => {
            lemma_run_move_part(job, disk);
        },
        Operation::Relocate => {
            let moving = LinkerView {
                operation,
                source,
                target,
                state: StateView::Pending(Phase::Rename),
            };
            lemma_run_move_part(moving, disk);
            reveal_with_fuel(run, 4);
        },
        Operation::Unlink => {
            let moving = LinkerView {
                operation,
                source,
                target,
                state: StateView::Pending(Phase::Rename),
            };
            lemma_run_move_part(moving, disk.without(source));
            assert(disk.without(source).with(source, Node::Link(target)).nodes =~= disk.with(
                source,
                Node::Link(target),
            ).nodes);
            reveal_with_fuel(run, 2);
        },
    }
}

/// A link that was made is found in place when it is asked for again, and
/// nothing changes: where making a link at `source` to `target` succeeds,
/// doing so once more succeeds and leaves the disk as the first time left it.
pub proof fn lemma_link_idempotent(disk: Disk, source: Seq<char>, target: Seq<char>)
    requires
        disk.link(source, target).1 is Ok,
    ensures
        disk.link(source, target).0.link(source, target) == (
            disk.link(source, target).0,
            Ok::<(), FaultView>(()),
        ),
{
}

/// Where `source` is a link that leads elsewhere than to `target`, and
/// `target` exists, making a link at `source` to `target` fails and names the
/// path that the link leads to; the disk stays as it is.
pub proof fn lemma_link_elsewhere(disk: Disk, source: Seq<char>, target: Seq<char>, other: Seq<char>)
    requires
        disk.reachable(target),
        disk.leads(source, other),
        other != target,
    ensures
        disk.link(source, target) == (
            disk,
            Err::<(), FaultView>(FaultView::Link(LinkErrorView::AlreadyLinked(other))),
        ),
{
}

/// Where nothing stands at `source`, relocating it fails, and nothing
/// changes: the one request of the job asks what stands at `source`.
pub proof fn lemma_relocate_missing_source(disk: Disk, source: Seq<char>, destination: Seq<char>)
    requires
        !disk.present(source),
    ensures
        disk.relocate(source, destination) == (
            disk,
            Err::<(), FaultView>(FaultView::Relocate(RelocateErrorView::SourceNotFound(source))),
        ),
        LinkerView::start(Operation::Relocate, source, destination).request() == Some(
            RequestView::Inspect(source),
        ),
        LinkerView::start(Operation::Relocate, source, destination).resumed(
            disk.respond(RequestView::Inspect(source)).1,
        ).request().is_none(),
{
}

/// Relocating a path to itself fails because the destination exists, and
/// nothing changes. The path must hold something, and not a link to itself.
pub proof fn lemma_relocate_onto_itself(disk: Disk, path: Seq<char>)
    requires
        disk.present(path),
        !disk.leads(path, path),
    ensures
        disk.relocate(path, path) == (
            disk,
            Err::<(), FaultView>(FaultView::Relocate(RelocateErrorView::DestinationExists(path))),
        ),
{
}

/// Unlinking undoes relocating: where `source` was relocated to a
/// `destination` at which nothing stood, unlinking succeeds and leaves every
/// path as it was before the relocation.
pub proof fn lemma_unlink_undoes_relocate(disk: Disk, source: Seq<char>, destination: Seq<char>)
    requires
        !disk.present(destination),
        disk.relocate(source, destination).1 is Ok,
    ensures
        disk.relocate(source, destination).0.unlink(source, destination) == (
            disk,
            Ok::<(), FaultView>(()),
        ),
{
    let after = disk.relocate(source, destination).0;
    let back = after.unlink(source, destination).0;
    assert(back.nodes =~= disk.nodes);
}

/// Unlinking that fails loses nothing: where the link at `link` leads to
/// `stored` and links can be made, a failure leaves the disk as it was.
pub proof fn lemma_unlink_fails_safe(disk: Disk, link: Seq<char>, stored: Seq<char>)
    requires
        disk.may_link,
        disk.leads(link, stored),
        disk.unlink(link, stored).1 is Err,
    ensures
        disk.unlink(link, stored).0 == disk,
{
    assert(disk.with(link, Node::Link(stored)).nodes =~= disk.nodes);
}

} // verus!
