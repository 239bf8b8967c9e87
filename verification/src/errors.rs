//! Error types, one per component.
use vstd::prelude::*;

verus! {

/// A save path that cannot be used.
#[derive(Debug)]
pub enum ValidationError {
    /// The expanded path, carried here, is relative.
    RelativePath(String),
    /// The template, carried here, names a variable without braces whose
    /// name begins with a letter or digit outside ASCII; the expansion cannot
    /// read such a name.
    VariableName(String),
}

/// Why a catalog could not be loaded.
#[derive(Debug)]
pub enum LoadError {
    /// The catalog was written by a newer release: its version, then the
    /// newest version this release reads.
    DatabaseTooNew(usize, usize),
    /// One of the catalog's save paths is invalid.
    Validation(ValidationError),
}

/// What is wrong with the storage path.
#[derive(Debug)]
pub enum StorageError {
    /// No storage path is set, or the one given is empty.
    Unset,
    /// The storage path, carried here, is relative.
    NotAbsolute(String),
}

/// What is wrong with what the user gave. Nothing is looked up or changed on
/// such input.
#[derive(Clone, Copy, PartialEq, Eq, Debug, Structural)]
pub enum InputError {
    /// The keyword to search for was empty.
    EmptyKeyword,
    /// The id of the entry was empty.
    EmptyId,
}

/// The broad sort of a failure that the file system reported.
#[derive(Clone, Copy, PartialEq, Eq, Debug, Structural)]
pub enum FailureKind {
    NotFound,
    PermissionDenied,
    AlreadyExists,
    Other,
}

/// A failure that the file system reported, as the driver passes it on.
#[derive(Clone, Copy, PartialEq, Eq, Debug, Structural)]
pub struct Failure {
    pub kind: FailureKind,
    /// The operating system's error number, or 0 where it gave none.
    pub code: i32,
}

/// Why a link was not made.
#[derive(Debug)]
pub enum LinkError {
    /// Nothing exists at the path the link was to lead to.
    DestinationDoesNotExist(String),
    /// A file or directory stands where the link was to be made.
    SourceExists(String),
    /// A link stands where the link was to be made, and leads to the path
    /// carried here.
    AlreadyLinked(String),
    /// The failure of the attempt itself, where nothing explains it.
    Io(Failure),
}

/// A [`LinkError`] as plain values.
pub enum LinkErrorView {
    DestinationDoesNotExist(Seq<char>),
    SourceExists(Seq<char>),
    AlreadyLinked(Seq<char>),
    Io(Failure),
}

impl View for LinkError {
    type V = LinkErrorView;

    open spec fn view(&self) -> LinkErrorView {
        match *self {
            LinkError::DestinationDoesNotExist(path) => LinkErrorView::DestinationDoesNotExist(
                path@,
            ),
            LinkError::SourceExists(path) => LinkErrorView::SourceExists(path@),
            LinkError::AlreadyLinked(target) => LinkErrorView::AlreadyLinked(target@),
            LinkError::Io(failure) => LinkErrorView::Io(failure),
        }
    }
}

/// Why data was not moved.
#[derive(Debug)]
pub enum MoveError {
    /// Neither renaming nor copying moved the first path to the second; the
    /// failure is that of the copy.
    FailedToMove(String, String, Failure),
}

/// A [`MoveError`] as plain values.
pub enum MoveErrorView {
    FailedToMove(Seq<char>, Seq<char>, Failure),
}

impl View for MoveError {
    type V = MoveErrorView;

    open spec fn view(&self) -> MoveErrorView {
        match *self {
            MoveError::FailedToMove(from, to, failure) => MoveErrorView::FailedToMove(
                from@,
                to@,
                failure,
            ),
        }
    }
}

/// Why data was not relocated, where neither the move nor the link failed.
#[derive(Debug)]
pub enum RelocateError {
    /// Nothing stands at the path the data was to be taken from.
    SourceNotFound(String),
    /// Something stands already where the data was to go.
    DestinationExists(String),
}

/// A [`RelocateError`] as plain values.
pub enum RelocateErrorView {
    SourceNotFound(Seq<char>),
    DestinationExists(Seq<char>),
}

impl View for RelocateError {
    type V = RelocateErrorView;

    open spec fn view(&self) -> RelocateErrorView {
        match *self {
            RelocateError::SourceNotFound(path) => RelocateErrorView::SourceNotFound(path@),
            RelocateError::DestinationExists(path) => RelocateErrorView::DestinationExists(path@),
        }
    }
}

/// Why a job of the link engine failed.
#[derive(Debug)]
pub enum Fault {
    Link(LinkError),
    Move(MoveError),
    Relocate(RelocateError),
    /// A single file system operation failed.
    Io(Failure),
    /// The driver answered a request with a reply of another kind.
    Protocol,
}

/// A [`Fault`] as plain values.
pub enum FaultView {
    Link(LinkErrorView),
    Move(MoveErrorView),
    Relocate(RelocateErrorView),
    Io(Failure),
    Protocol,
}

impl View for Fault {
    type V = FaultView;

    open spec fn view(&self) -> FaultView {
        match *self {
            Fault::Link(e) => FaultView::Link(e@),
            Fault::Move(e) => FaultView::Move(e@),
            Fault::Relocate(e) => FaultView::Relocate(e@),
            Fault::Io(failure) => FaultView::Io(failure),
            Fault::Protocol => FaultView::Protocol,
        }
    }
}

/// The plain values of the result of a job.
pub open spec fn result_view(r: Result<(), Fault>) -> Result<(), FaultView> {
    match r {
        Ok(()) => Ok(()),
        Err(fault) => Err(fault@),
    }
}

} // verus!
