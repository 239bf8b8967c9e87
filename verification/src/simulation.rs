//! A file system in memory that answers requests as the model does. It lets
//! jobs and batches be run where no disk is to be touched.
use crate::disk::{run, Disk, Node};
use crate::errors::{result_view, Failure, FailureKind, Fault, LinkError};
use crate::linker::{Linker, NodeKind, Reply, Request};
use vstd::prelude::*;
use vstd::string::*;

verus! {

/// What stands at a path of a [`Simulation`]. The number of a file or
/// directory stands for its contents; an empty directory has the number 0.
#[derive(Debug)]
pub enum Item {
    File(u64),
    Dir(u64),
    Link(String),
    Other,
}

impl View for Item {
    type V = Node;

    open spec fn view(&self) -> Node {
        match *self {
            Item::File(contents) => Node::File(contents as nat),
            Item::Dir(contents) => Node::Dir(contents as nat),
            Item::Link(target) => Node::Link(target@),
            Item::Other => Node::Other,
        }
    }
}

impl Item {
    /// The same item once more.
    pub fn copy(&self) -> (r: Item)
        ensures
            r@ == self@,
    {
        match self {
            Item::File(contents) => Item::File(*contents),
            Item::Dir(contents) => Item::Dir(*contents),
            Item::Link(target) => Item::Link(target.clone()),
            Item::Other => Item::Other,
        }
    }

    /// The kind of the item.
    pub fn kind(&self) -> (r: NodeKind)
        ensures
            r == match self@ {
                Node::File(_) => NodeKind::File,
                Node::Dir(_) => NodeKind::Dir,
                Node::Link(_) => NodeKind::Link,
                Node::Other => NodeKind::Other,
            },
    {
        match self {
            Item::File(_) => NodeKind::File,
            Item::Dir(_) => NodeKind::Dir,
            Item::Link(_) => NodeKind::Link,
            Item::Other => NodeKind::Other,
        }
    }
}

/// A file system in memory: a record of what was put at which path and what
/// was removed, the latest record of a path telling what stands there.
#[derive(Debug)]
pub struct Simulation {
    records: Vec<(String, Option<Item>)>,
    may_link: bool,
    one_device: bool,
}

/// The nodes that a list of records leaves.
pub closed spec fn replay(records: Seq<(String, Option<Item>)>) -> Map<Seq<char>, Node>
    decreases records.len(),
{
    if records.len() == 0 {
        Map::empty()
    } else {
        let earlier = replay(records.drop_last());
        match records.last().1 {
            Some(item) => earlier.insert(records.last().0@, item@),
            None => earlier.remove(records.last().0@),
        }
    }
}

impl View for Simulation {
    type V = Disk;

    closed spec fn view(&self) -> Disk {
        Disk { nodes: replay(self.records@), may_link: self.may_link, one_device: self.one_device }
    }
}

/// The latest record of a path tells what stands there.
proof fn lemma_replay_latest(records: Seq<(String, Option<Item>)>, path: Seq<char>, i: int)
    requires
        0 <= i < records.len(),
        records[i].0@ == path,
        forall|j: int| i < j < records.len() ==> (#[trigger] records[j]).0@ != path,
    ensures
        match records[i].1 {
            Some(item) => replay(records).contains_key(path) && replay(records)[path] == item@,
            None => !replay(records).contains_key(path),
        },
    decreases records.len(),
{
    if i < records.len() - 1 {
        let rest = records.drop_last();
        assert(rest[i] == records[i]);
        assert forall|j: int| i < j < rest.len() implies (#[trigger] rest[j]).0@ != path by {
            assert(rest[j] == records[j]);
        }
        lemma_replay_latest(rest, path, i);
        assert(records.last().0@ != path);
    }
}

/// Nothing stands at a path that no record mentions.
proof fn lemma_replay_unmentioned(records: Seq<(String, Option<Item>)>, path: Seq<char>)
    requires
        forall|j: int| 0 <= j < records.len() ==> (#[trigger] records[j]).0@ != path,
    ensures
        !replay(records).contains_key(path),
    decreases records.len(),
{
    if records.len() > 0 {
        let rest = records.drop_last();
        assert forall|j: int| 0 <= j < rest.len() implies (#[trigger] rest[j]).0@ != path by {
            assert(rest[j] == records[j]);
        }
        lemma_replay_unmentioned(rest, path);
        assert(records.last().0@ != path);
    }
}

impl Simulation {
    /// An empty file system. Links can be made on it if `may_link`, and
    /// renames work on it if `one_device`.
    pub fn new(may_link: bool, one_device: bool) -> (r: Simulation)
        ensures
            r@ == (Disk { nodes: Map::empty(), may_link, one_device }),
    {
        Simulation { records: Vec::new(), may_link, one_device }
    }

    /// Puts `item` at `path`, in place of what stood there.
    pub fn put(&mut self, path: String, item: Item)
        ensures
            final(self)@ == old(self)@.with(path@, item@),
    {
        proof {
            assert(self.records@.push((path, Some(item))).drop_last() =~= self.records@);
        }
        self.records.push((path, Some(item)));
    }

    /// Removes what stands at `path`.
    pub fn remove(&mut self, path: String)
        ensures
            final(self)@ == old(self)@.without(path@),
    {
        proof {
            assert(self.records@.push((path, None)).drop_last() =~= self.records@);
        }
        self.records.push((path, None));
    }

    /// What stands at `path`, if anything.
    pub fn get(&self, path: &str) -> (r: Option<&Item>)
        ensures
            match r {
                Some(item) => self@.present(path@) && self@.nodes[path@] == item@,
                None => !self@.present(path@),
            },
    {
        let key = path.to_owned();
        let mut i: usize = self.records.len();
        while i > 0
            invariant
                i <= self.records@.len(),
                key@ == path@,
                forall|j: int|
                    i <= j < self.records@.len() ==> (#[trigger] self.records@[j]).0@ != path@,
            decreases i,
        {
            i -= 1;
            if self.records[i].0 == key {
                proof {
                    lemma_replay_latest(self.records@, path@, i as int);
                }
                return match &self.records[i].1 {
                    Some(item) => Some(item),
                    None => None,
                };
            }
        }
        proof {
            lemma_replay_unmentioned(self.records@, path@);
        }
        None
    }

    /// The kind of what stands at `path`.
    pub fn kind(&self, path: &str) -> (r: NodeKind)
        ensures
            r == self@.kind(path@),
    {
        match self.get(path) {
            Some(item) => item.kind(),
            None => NodeKind::Missing,
        }
    }

    /// The path that the link at `path` leads to, if a link stands there.
    pub fn target(&self, path: &str) -> (r: Option<String>)
        ensures
            match r {
                Some(target) => self@.leads(path@, target@),
                None => !(self@.kind(path@) is Link),
            },
    {
        match self.get(path) {
            Some(Item::Link(target)) => Some(target.clone()),
            _ => None,
        }
    }

    /// The contents of the file or directory at `path`, if one stands there.
    pub fn contents(&self, path: &str) -> (r: Option<u64>)
        ensures
            match r {
                Some(contents) => self@.present(path@) && (self@.nodes[path@] == Node::File(
                    contents as nat,
                ) || self@.nodes[path@] == Node::Dir(contents as nat)),
                None => !(self@.kind(path@) is File) && !(self@.kind(path@) is Dir),
            },
    {
        match self.get(path) {
            Some(Item::File(contents)) => Some(*contents),
            Some(Item::Dir(contents)) => Some(*contents),
            _ => None,
        }
    }

    /// Whether something stands at `path`.
    pub fn present(&self, path: &str) -> (r: bool)
        ensures
            r == self@.present(path@),
    {
        self.get(path).is_some()
    }

    fn reachable(&self, path: &str) -> (r: bool)
        ensures
            r == self@.reachable(path@),
    {
        match self.get(path) {
            Some(Item::Link(target)) => self.present(target.as_str()),
            Some(_) => true,
            None => false,
        }
    }

    fn link_refusal(&self) -> (r: Failure)
        ensures
            r == self@.link_refusal(),
    {
        if self.may_link {
            Failure { kind: FailureKind::AlreadyExists, code: 0 }
        } else {
            Failure { kind: FailureKind::PermissionDenied, code: 0 }
        }
    }

    /// Moves what stands at `from`, where something does, to `to`.
    fn transfer(&mut self, from: String, to: String)
        requires
            old(self)@.present(from@),
        ensures
            final(self)@ == old(self)@.moved(from@, to@),
    {
        let item = match self.get(from.as_str()) {
            Some(item) => item.copy(),
            None => Item::Other,
        };
        self.remove(from);
        self.put(to, item);
    }

    /// Carries out `request` and answers it, as the model does.
    pub fn respond(&mut self, request: Request) -> (reply: Reply)
        ensures
            (final(self)@, reply@) == old(self)@.respond(request@),
    {
        let refused = Failure { kind: FailureKind::Other, code: 0 };
        let not_found = Failure { kind: FailureKind::NotFound, code: 0 };
        match request {
            Request::Exists(path) => Reply::Flag(self.reachable(path.as_str())),
            Request::Inspect(path) => Reply::Kind(self.kind(path.as_str())),
            Request::ReadLink(path) => Reply::Target(self.target(path.as_str())),
            Request::IsDir(path) => Reply::Flag(self.kind(path.as_str()) == NodeKind::Dir),
            Request::CreateLink { at, to } => {
                if !self.may_link || self.present(at.as_str()) {
                    Reply::Done(Err(self.link_refusal()))
                } else {
                    self.put(at, Item::Link(to));
                    Reply::Done(Ok(()))
                }
            },
            Request::Rename { from, to } => {
                if !self.present(from.as_str()) {
                    Reply::Done(Err(not_found))
                } else if !self.one_device {
                    Reply::Done(Err(refused))
                } else {
                    self.transfer(from, to);
                    Reply::Done(Ok(()))
                }
            },
            Request::MoveDir { from, to } => {
                if self.kind(from.as_str()) == NodeKind::Dir && !self.present(to.as_str()) {
                    self.transfer(from, to);
                    Reply::Done(Ok(()))
                } else {
                    Reply::Done(Err(refused))
                }
            },
            Request::MoveFile { from, to } => {
                if self.present(from.as_str()) && self.kind(from.as_str()) != NodeKind::Dir
                    && !self.present(to.as_str()) {
                    self.transfer(from, to);
                    Reply::Done(Ok(()))
                } else {
                    Reply::Done(Err(refused))
                }
            },
            Request::CreateDirAll(path) => {
                let kind = self.kind(path.as_str());
                if kind == NodeKind::Missing {
                    self.put(path, Item::Dir(0));
                    Reply::Done(Ok(()))
                } else if kind == NodeKind::Dir {
                    Reply::Done(Ok(()))
                } else {
                    Reply::Done(Err(Failure { kind: FailureKind::AlreadyExists, code: 0 }))
                }
            },
            Request::RemoveLink(path) => {
                let kind = self.kind(path.as_str());
                if kind == NodeKind::Link {
                    self.remove(path);
                    Reply::Done(Ok(()))
                } else if kind != NodeKind::Missing {
                    Reply::Done(Err(refused))
                } else {
                    Reply::Done(Err(not_found))
                }
            },
            Request::RemoveDir(path) => {
                let empty = match self.get(path.as_str()) {
                    Some(Item::Dir(contents)) => *contents == 0,
                    _ => false,
                };
                if empty {
                    self.remove(path);
                    Reply::Done(Ok(()))
                } else if self.present(path.as_str()) {
                    Reply::Done(Err(refused))
                } else {
                    Reply::Done(Err(not_found))
                }
            },
            Request::CheckLinks => Reply::Checked(
                if self.may_link {
                    Ok(())
                } else {
                    Err(
                        Fault::Link(
                            LinkError::Io(Failure { kind: FailureKind::PermissionDenied, code: 0 }),
                        ),
                    )
                },
            ),
        }
    }

}

impl Linker {
    /// Drives the job to its end on the file system `disk`.
    pub fn run(self, disk: &mut Simulation) -> (r: Result<(), Fault>)
        ensures
            (final(disk)@, result_view(r)) == run(self@, old(disk)@),
    {
        let ghost goal = run(self@, disk@);
        let mut current = self;
        loop
            invariant
                run(current@, disk@) == goal,
                goal == run(self@, old(disk)@),
            decreases current@.steps_left(),
        {
            match current.next() {
                Some(request) => {
                    let reply = disk.respond(request);
                    current.resume(reply);
                },
                None => {
                    match current.outcome() {
                        Some(result) => {
                            return result;
                        },
                        None => {
                            return Err(Fault::Protocol);
                        },
                    }
                },
            }
        }
    }
}

} // verus!
