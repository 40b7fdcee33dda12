//! A filesystem held in memory.
//!
//! It holds files with their bytes and directories, each under its path, and
//! offers the handful of operations that a transfer needs. It is the
//! reference against which the engine's behaviour is stated: what an
//! operation does to it is a mathematical function of the tree and the
//! operation.

use vstd::prelude::*;
use crate::engine::Action;
use crate::engine::ActionV;
use crate::engine::Event;
use crate::engine::EventV;
use crate::engine::NodeKind;
use crate::path::Path;
use crate::path::PathV;

verus! {

/// The mathematical value of a `Node`.
pub enum NodeV {
    File(Seq<u8>),
    Directory,
}

/// What the tree holds under a path.
#[derive(Debug, PartialEq, Eq)]
pub enum Node {
    /// A file with its bytes.
    File(Vec<u8>),
    /// A directory.
    Directory,
}

impl View for Node {
    type V = NodeV;

    open spec fn view(&self) -> NodeV {
        match self {
            Node::File(bytes) => NodeV::File(bytes@),
            Node::Directory => NodeV::Directory,
        }
    }
}

/// The mathematical value of an `Entry`.
pub struct EntryV {
    pub path: PathV,
    pub node: NodeV,
}

/// A path and what it leads to.
#[derive(Debug, PartialEq, Eq)]
pub struct Entry {
    pub path: Path,
    pub node: Node,
}

impl View for Entry {
    type V = EntryV;

    open spec fn view(&self) -> EntryV {
        EntryV { path: self.path@, node: self.node@ }
    }
}

impl DeepView for Entry {
    type V = EntryV;

    open spec fn deep_view(&self) -> EntryV {
        self@
    }
}

/// The names under which the entries of `entries` stand directly below
/// `dir`, in the order of the entries.
pub open spec fn names_below(entries: Seq<EntryV>, dir: PathV) -> Seq<Seq<char>>
    decreases entries.len(),
{
    if entries.len() == 0 {
        Seq::empty()
    } else {
        let rest = names_below(entries.drop_last(), dir);
        let path = entries.last().path;
        if path.parts.len() > 0 && path.parent() == dir {
            rest.push(path.name())
        } else {
            rest
        }
    }
}

/// The text with which the tree refuses an operation.
pub open spec fn refusal(action: ActionV) -> Seq<char> {
    match action {
        ActionV::CopyFile(_, _) => "cannot copy"@,
        ActionV::RemoveFile(_) => "cannot remove file"@,
        ActionV::CreateDir(_) => "cannot create directory"@,
        ActionV::ListDir(_) => "cannot read directory"@,
        ActionV::RemoveDir(_) => "cannot remove directory"@,
        _ => "not a filesystem operation"@,
    }
}

/// The mathematical value of a filesystem: its entries in the order in
/// which they were made.
pub struct FsV {
    pub entries: Seq<EntryV>,
}

impl FsV {
    /// Whether something stands under `path`.
    #[verifier::opaque]
    pub open spec fn has(self, path: PathV) -> bool {
        exists|i: int| 0 <= i < self.entries.len() && (#[trigger] self.entries[i]).path == path
    }

    /// The position of the entry for `path`.
    #[verifier::opaque]
    pub open spec fn index(self, path: PathV) -> int {
        choose|i: int| 0 <= i < self.entries.len() && (#[trigger] self.entries[i]).path == path
    }

    /// What stands under `path`.
    pub open spec fn node(self, path: PathV) -> Option<NodeV> {
        if self.has(path) {
            Some(self.entries[self.index(path)].node)
        } else {
            None
        }
    }

    /// The kind of what stands under `path`.
    pub open spec fn kind(self, path: PathV) -> NodeKind {
        match self.node(path) {
            Some(NodeV::File(_)) => NodeKind::File,
            Some(NodeV::Directory) => NodeKind::Directory,
            None => NodeKind::Missing,
        }
    }

    /// No path has two entries.
    pub open spec fn distinct(self) -> bool {
        forall|i: int, j: int|
            0 <= i < j < self.entries.len() ==> (#[trigger] self.entries[i]).path != (
            #[trigger] self.entries[j]).path
    }

    /// Whatever stands below a path stands in a directory.
    #[verifier::opaque]
    pub open spec fn closed(self) -> bool {
        forall|i: int|
            0 <= i < self.entries.len() && (#[trigger] self.entries[i]).path.parts.len() > 0
                ==> self.kind(self.entries[i].path.parent()) == NodeKind::Directory
    }

    /// The entries form a tree.
    pub open spec fn wf(self) -> bool {
        self.distinct() && self.closed()
    }

    /// The names of the entries of the directory `dir`.
    pub open spec fn children(self, dir: PathV) -> Seq<Seq<char>> {
        names_below(self.entries, dir)
    }

    /// The tree with `node` under `path`, in place of what was there.
    pub open spec fn stored(self, path: PathV, node: NodeV) -> FsV {
        if self.has(path) {
            FsV { entries: self.entries.update(self.index(path), EntryV { path, node }) }
        } else {
            FsV { entries: self.entries.push(EntryV { path, node }) }
        }
    }

    /// The tree without the entry for `path`.
    pub open spec fn removed(self, path: PathV) -> FsV {
        if self.has(path) {
            FsV { entries: self.entries.remove(self.index(path)) }
        } else {
            self
        }
    }

    /// Whether the tree carries out `action`.
    ///
    /// A probe always succeeds. A file is copied where the source is a file,
    /// the destination is no directory and stands in one. A file or an empty
    /// directory is removed where there is one. A directory is created where
    /// nothing stands yet, in a directory or as a root. A directory is
    /// listed where there is one.
    pub open spec fn accepts(self, action: ActionV) -> bool {
        match action {
            ActionV::Probe(_) => true,
            ActionV::CopyFile(from, to) => {
                &&& self.kind(from) == NodeKind::File
                &&& to.parts.len() > 0
                &&& self.kind(to.parent()) == NodeKind::Directory
                &&& self.kind(to) != NodeKind::Directory
            },
            ActionV::RemoveFile(path) => self.kind(path) == NodeKind::File,
            ActionV::CreateDir(path) => {
                &&& self.kind(path) == NodeKind::Missing
                &&& (path.parts.len() == 0 || self.kind(path.parent()) == NodeKind::Directory)
            },
            ActionV::ListDir(path) => self.kind(path) == NodeKind::Directory,
            ActionV::RemoveDir(path) => {
                &&& self.kind(path) == NodeKind::Directory
                &&& self.children(path).len() == 0
            },
            _ => false,
        }
    }

    /// Whether a file can be put under `path`: it stands in a directory and
    /// is none itself.
    pub open spec fn takes_file(self, path: PathV) -> bool {
        &&& path.parts.len() > 0
        &&& self.kind(path.parent()) == NodeKind::Directory
        &&& self.kind(path) != NodeKind::Directory
    }

    /// The tree after `action`. A refused action changes nothing.
    pub open spec fn after(self, action: ActionV) -> FsV {
        if !self.accepts(action) {
            self
        } else {
            match action {
                ActionV::CopyFile(from, to) => self.stored(to, self.node(from).unwrap()),
                ActionV::RemoveFile(path) => self.removed(path),
                ActionV::CreateDir(path) => self.stored(path, NodeV::Directory),
                ActionV::RemoveDir(path) => self.removed(path),
                _ => self,
            }
        }
    }

    /// What the tree answers to `action`.
    pub open spec fn answer(self, action: ActionV) -> EventV {
        if !self.accepts(action) {
            EventV::Failed(refusal(action))
        } else {
            match action {
                ActionV::Probe(path) => EventV::Kind(self.kind(path)),
                ActionV::ListDir(path) => EventV::Entries(self.children(path)),
                _ => EventV::Done,
            }
        }
    }
}

/// A filesystem held in memory.
#[derive(Debug)]
pub struct MemFs {
    entries: Vec<Entry>,
}

impl View for MemFs {
    type V = FsV;

    closed spec fn view(&self) -> FsV {
        FsV { entries: self.entries.deep_view() }
    }
}

/// A copy of `bytes`.
pub fn clone_bytes(bytes: &Vec<u8>) -> (out: Vec<u8>)
    ensures
        out@ == bytes@,
{
    let mut out: Vec<u8> = Vec::new();
    let mut i: usize = 0;
    while i < bytes.len()
        invariant
            i <= bytes.len(),
            out@ == bytes@.take(i as int),
        decreases bytes.len() - i,
    {
        out.push(bytes[i]);
        assert(out@ =~= bytes@.take(i + 1));
        i = i + 1;
    }
    assert(bytes@.take(i as int) =~= bytes@);
    out
}

impl MemFs {
    /// A filesystem that holds nothing.
    pub fn new() -> (fs: MemFs)
        ensures
            fs@.entries.len() == 0,
            fs@.wf(),
    {
        proof {
            reveal(FsV::has);
            reveal(FsV::index);
        }
        let fs = MemFs { entries: Vec::new() };
        assert(fs@.entries =~= Seq::empty());
        proof {
            reveal(FsV::closed);
        }
        fs
    }

    /// The number of entries.
    pub fn len(&self) -> (n: usize)
        ensures
            n == self@.entries.len(),
    {
        self.entries.len()
    }

    fn find(&self, path: &Path) -> (at: Option<usize>)
        requires
            self@.distinct(),
        ensures
            match at {
                Some(i) => {
                    &&& i < self.entries.len()
                    &&& self.entries[i as int]@ == self@.entries[i as int]
                    &&& self@.entries[i as int].path == path@
                    &&& self@.has(path@)
                    &&& self@.index(path@) == i
                },
                None => !self@.has(path@),
            },
    {
        proof {
            reveal(FsV::has);
            reveal(FsV::index);
        }
        let mut i: usize = 0;
        while i < self.entries.len()
            invariant
                i <= self.entries.len(),
                self@.distinct(),
                forall|j: int| 0 <= j < i ==> (#[trigger] self@.entries[j]).path != path@,
            decreases self.entries.len() - i,
        {
            assert(self@.entries[i as int] == self.entries[i as int]@);
            if self.entries[i].path.same_as(path) {
                proof {
                    lemma_node_of_entry(self@, i as int);
                }
                return Some(i);
            }
            i = i + 1;
        }
        None
    }

    /// The kind of what stands under `path`.
    pub fn kind(&self, path: &Path) -> (kind: NodeKind)
        requires
            self@.wf(),
        ensures
            kind == self@.kind(path@),
    {
        match self.find(path) {
            Some(i) => match &self.entries[i].node {
                Node::File(_) => NodeKind::File,
                Node::Directory => NodeKind::Directory,
            },
            None => NodeKind::Missing,
        }
    }

    /// The bytes of the file under `path`, where there is one.
    pub fn read(&self, path: &Path) -> (bytes: Option<Vec<u8>>)
        requires
            self@.wf(),
        ensures
            match self@.node(path@) {
                Some(NodeV::File(held)) => bytes matches Some(got) && got@ == held,
                _ => bytes is None,
            },
    {
        match self.find(path) {
            Some(i) => match &self.entries[i].node {
                Node::File(held) => Some(clone_bytes(held)),
                Node::Directory => None,
            },
            None => None,
        }
    }

    /// The names of the entries directly below `dir`, oldest first.
    pub fn list(&self, dir: &Path) -> (names: Vec<String>)
        ensures
            names.deep_view() == self@.children(dir@),
    {
        let mut names: Vec<String> = Vec::new();
        let mut i: usize = 0;
        assert(self@.entries.take(0) =~= Seq::empty());
        while i < self.entries.len()
            invariant
                i <= self.entries.len(),
                names.deep_view() == names_below(self@.entries.take(i as int), dir@),
            decreases self.entries.len() - i,
        {
            let ghost upto = self@.entries.take(i + 1);
            let ghost before = names.deep_view();
            assert(upto.drop_last() =~= self@.entries.take(i as int));
            assert(upto.last() == self.entries[i as int]@);
            let path = &self.entries[i].path;
            if path.is_directly_below(dir) {
                let n = path.parts.len();
                assert(path@.name() == path.parts[n - 1]@);
                names.push(path.parts[n - 1].clone());
                assert(names.deep_view() =~= before.push(path@.name()));
            }
            i = i + 1;
        }
        assert(self@.entries.take(i as int) =~= self@.entries);
        names
    }

    fn store(&mut self, path: &Path, node: Node)
        requires
            old(self)@.distinct(),
        ensures
            final(self)@ == old(self)@.stored(path@, node@),
    {
        let entry = Entry { path: path.clone(), node };
        match self.find(path) {
            Some(i) => {
                self.entries.set(i, entry);
                assert(self@.entries =~= old(self)@.entries.update(i as int, entry@));
            },
            None => {
                self.entries.push(entry);
                assert(self@.entries =~= old(self)@.entries.push(entry@));
            },
        }
    }

    fn remove(&mut self, path: &Path)
        requires
            old(self)@.distinct(),
        ensures
            final(self)@ == old(self)@.removed(path@),
    {
        match self.find(path) {
            Some(i) => {
                self.entries.remove(i);
                assert(self@.entries =~= old(self)@.entries.remove(i as int));
            },
            None => {},
        }
    }

    /// Whether the tree would carry out `action`.
    pub fn accepts(&self, action: &Action) -> (ok: bool)
        requires
            self@.wf(),
        ensures
            ok == self@.accepts(action@),
    {
        match action {
            Action::Probe(_) => true,
            Action::CopyFile(from, to) => {
                if to.parts.len() == 0 {
                    assert(to@.parts.len() == 0);
                    return false;
                }
                assert(to@.parts.len() > 0);
                let above = parent_of(to);
                self.kind(from) == NodeKind::File && self.kind(&above) == NodeKind::Directory
                    && self.kind(to) != NodeKind::Directory
            },
            Action::RemoveFile(path) => self.kind(path) == NodeKind::File,
            Action::CreateDir(path) => {
                if self.kind(path) != NodeKind::Missing {
                    return false;
                }
                if path.parts.len() == 0 {
                    assert(path@.parts.len() == 0);
                    return true;
                }
                assert(path@.parts.len() > 0);
                let above = parent_of(path);
                self.kind(&above) == NodeKind::Directory
            },
            Action::ListDir(path) => self.kind(path) == NodeKind::Directory,
            Action::RemoveDir(path) => {
                if self.kind(path) != NodeKind::Directory {
                    return false;
                }
                let names = self.list(path);
                assert(names.deep_view().len() == names.len());
                names.len() == 0
            },
            _ => false,
        }
    }

    /// Carries out `action` and says how it went. A refused action changes
    /// nothing.
    pub fn perform(&mut self, action: &Action) -> (event: Event)
        requires
            old(self)@.wf(),
        ensures
            final(self)@ == old(self)@.after(action@),
            event@ == old(self)@.answer(action@),
            final(self)@.wf(),
    {
        proof {
            lemma_after_wf(self@, action@);
        }
        if !self.accepts(action) {
            return Event::Failed(refusal_text(action));
        }
        match action {
            Action::Probe(path) => Event::Kind(self.kind(path)),
            Action::CopyFile(from, to) => {
                match self.read(from) {
                    Some(bytes) => {
                        self.store(to, Node::File(bytes));
                    },
                    None => {},
                }
                Event::Done
            },
            Action::RemoveFile(path) => {
                self.remove(path);
                Event::Done
            },
            Action::CreateDir(path) => {
                self.store(path, Node::Directory);
                Event::Done
            },
            Action::ListDir(path) => Event::Entries(self.list(path)),
            Action::RemoveDir(path) => {
                self.remove(path);
                Event::Done
            },
            _ => Event::Done,
        }
    }

    /// Puts a file with these bytes under `path`, in place of a file that
    /// may stand there. Refused, with `false`, where `path` does not stand
    /// in a directory or is one itself.
    pub fn write(&mut self, path: &Path, bytes: Vec<u8>) -> (ok: bool)
        requires
            old(self)@.wf(),
        ensures
            ok == old(self)@.takes_file(path@),
            final(self)@ == if ok {
                old(self)@.stored(path@, NodeV::File(bytes@))
            } else {
                old(self)@
            },
            final(self)@.wf(),
    {
        if path.parts.len() == 0 {
            assert(path@.parts.len() == 0);
            return false;
        }
        assert(path@.parts.len() > 0);
        let above = parent_of(path);
        if self.kind(&above) != NodeKind::Directory || self.kind(path) == NodeKind::Directory {
            return false;
        }
        proof {
            lemma_store_wf(self@, path@, NodeV::File(bytes@));
        }
        self.store(path, Node::File(bytes));
        true
    }
}

/// The path one level above `path`.
pub(crate) fn parent_of(path: &Path) -> (above: Path)
    requires
        path@.parts.len() > 0,
    ensures
        above@ == path@.parent(),
{
    let mut parts: Vec<String> = Vec::new();
    let n = path.parts.len();
    assert(path.parts.deep_view().len() == n);
    let mut i: usize = 0;
    while i + 1 < n
        invariant
            i + 1 <= n,
            n == path.parts.len(),
            parts.len() == i,
            forall|j: int| 0 <= j < i ==> parts[j]@ == path.parts[j]@,
        decreases n - i,
    {
        parts.push(path.parts[i].clone());
        i = i + 1;
    }
    assert(parts.deep_view() =~= path.parts.deep_view().drop_last());
    Path { anchor: path.anchor.clone(), parts }
}

/// The text with which the tree refuses `action`.
pub fn refusal_text(action: &Action) -> (text: String)
    ensures
        text@ == refusal(action@),
{
    match action {
        Action::CopyFile(_, _) => String::from_str("cannot copy"),
        Action::RemoveFile(_) => String::from_str("cannot remove file"),
        Action::CreateDir(_) => String::from_str("cannot create directory"),
        Action::ListDir(_) => String::from_str("cannot read directory"),
        Action::RemoveDir(_) => String::from_str("cannot remove directory"),
        _ => String::from_str("not a filesystem operation"),
    }
}

/// In a tree, what has something below it is a directory.
pub proof fn lemma_parent_is_directory(fs: FsV, path: PathV)
    requires
        fs.wf(),
        fs.has(path),
        path.parts.len() > 0,
    ensures
        fs.kind(path.parent()) == NodeKind::Directory,
{
    reveal(FsV::has);
    reveal(FsV::index);
    reveal(FsV::closed);
    let i = fs.index(path);
    assert(fs.entries[i].path == path);
}

/// In a tree without doubled paths an entry is found under its own path.
pub proof fn lemma_node_of_entry(fs: FsV, i: int)
    requires
        fs.distinct(),
        0 <= i < fs.entries.len(),
    ensures
        fs.has(fs.entries[i].path),
        fs.index(fs.entries[i].path) == i,
        fs.node(fs.entries[i].path) == Some(fs.entries[i].node),
{
    reveal(FsV::has);
    reveal(FsV::index);
    let p = fs.entries[i].path;
    assert(fs.has(p));
    let j = fs.index(p);
    assert(fs.entries[j].path == p);
    if i < j {
        assert(fs.entries[i].path != fs.entries[j].path);
    } else if j < i {
        assert(fs.entries[j].path != fs.entries[i].path);
    }
}

/// Storing changes the tree at one path and nowhere else.
pub proof fn lemma_stored(fs: FsV, path: PathV, node: NodeV)
    requires
        fs.distinct(),
    ensures
        fs.stored(path, node).distinct(),
        fs.stored(path, node).node(path) == Some(node),
        forall|q: PathV| q != path ==> fs.stored(path, node).node(q) == fs.node(q),
        forall|q: PathV| fs.stored(path, node).has(q) == (q == path || fs.has(q)),
{
    reveal(FsV::has);
    reveal(FsV::index);
    let after = fs.stored(path, node);
    let entry = EntryV { path, node };
    if fs.has(path) {
        let k = fs.index(path);
        assert(fs.entries[k].path == path);
        assert forall|i: int, j: int| 0 <= i < j < after.entries.len() implies (
        #[trigger] after.entries[i]).path != (#[trigger] after.entries[j]).path by {
            assert(after.entries[i].path == fs.entries[i].path);
            assert(after.entries[j].path == fs.entries[j].path);
        }
        assert(after.entries[k] == entry);
        lemma_node_of_entry(after, k);
        assert forall|q: PathV| after.has(q) == (q == path || fs.has(q)) by {
            if after.has(q) {
                let i = after.index(q);
                assert(after.entries[i].path == fs.entries[i].path);
            }
            if fs.has(q) {
                let i = fs.index(q);
                assert(after.entries[i].path == q);
            }
        }
        assert forall|q: PathV| q != path implies after.node(q) == fs.node(q) by {
            if fs.has(q) {
                let i = fs.index(q);
                assert(i != k);
                assert(after.entries[i] == fs.entries[i]);
                lemma_node_of_entry(after, i);
            }
        }
    } else {
        let k = fs.entries.len() as int;
        assert forall|i: int, j: int| 0 <= i < j < after.entries.len() implies (
        #[trigger] after.entries[i]).path != (#[trigger] after.entries[j]).path by {
            assert(after.entries[i] == fs.entries[i]);
            if j < k {
                assert(after.entries[j] == fs.entries[j]);
            }
        }
        assert(after.entries[k] == entry);
        lemma_node_of_entry(after, k);
        assert forall|q: PathV| after.has(q) == (q == path || fs.has(q)) by {
            if after.has(q) {
                let i = after.index(q);
                if i < k {
                    assert(after.entries[i] == fs.entries[i]);
                }
            }
            if fs.has(q) {
                let i = fs.index(q);
                assert(after.entries[i].path == q);
            }
        }
        assert forall|q: PathV| q != path implies after.node(q) == fs.node(q) by {
            if fs.has(q) {
                let i = fs.index(q);
                assert(after.entries[i] == fs.entries[i]);
                lemma_node_of_entry(after, i);
            }
        }
    }
}

/// Removing changes the tree at one path and nowhere else.
pub proof fn lemma_removed(fs: FsV, path: PathV)
    requires
        fs.distinct(),
    ensures
        fs.removed(path).distinct(),
        fs.removed(path).node(path) is None,
        forall|q: PathV| q != path ==> fs.removed(path).node(q) == fs.node(q),
        forall|q: PathV| fs.removed(path).has(q) == (q != path && fs.has(q)),
{
    reveal(FsV::has);
    reveal(FsV::index);
    let after = fs.removed(path);
    if fs.has(path) {
        let k = fs.index(path);
        assert(fs.entries[k].path == path);
        assert forall|i: int| 0 <= i < after.entries.len() implies #[trigger] after.entries[i]
            == fs.entries[if i < k {
            i
        } else {
            i + 1
        }] by {}
        assert forall|i: int, j: int| 0 <= i < j < after.entries.len() implies (
        #[trigger] after.entries[i]).path != (#[trigger] after.entries[j]).path by {
            let a = if i < k {
                i
            } else {
                i + 1
            };
            let b = if j < k {
                j
            } else {
                j + 1
            };
            assert(after.entries[i] == fs.entries[a]);
            assert(after.entries[j] == fs.entries[b]);
            assert(fs.entries[a].path != fs.entries[b].path);
        }
        assert forall|q: PathV| after.has(q) == (q != path && fs.has(q)) by {
            if after.has(q) {
                let i = after.index(q);
                let a = if i < k {
                    i
                } else {
                    i + 1
                };
                assert(after.entries[i] == fs.entries[a]);
                assert(fs.entries[a].path == q);
                lemma_node_of_entry(fs, a);
                lemma_node_of_entry(fs, k);
            }
            if q != path && fs.has(q) {
                let i = fs.index(q);
                let a = if i < k {
                    i
                } else {
                    i - 1
                };
                assert(i != k);
                assert(after.entries[a] == fs.entries[i]);
            }
        }
        assert forall|q: PathV| q != path implies after.node(q) == fs.node(q) by {
            if fs.has(q) {
                let i = fs.index(q);
                let a = if i < k {
                    i
                } else {
                    i - 1
                };
                assert(i != k);
                assert(after.entries[a] == fs.entries[i]);
                lemma_node_of_entry(after, a);
            }
        }
    }
}

/// A name is listed exactly when an entry stands under it, and once.
pub proof fn lemma_names_below(fs: FsV, dir: PathV)
    requires
        fs.distinct(),
    ensures
        forall|name: Seq<char>| #[trigger]
            fs.children(dir).contains(name) <==> fs.has(dir.child(name)),
        fs.children(dir).no_duplicates(),
    decreases fs.entries.len(),
{
    reveal(FsV::has);
    reveal(FsV::index);
    let entries = fs.entries;
    let listed = names_below(entries, dir);
    if entries.len() == 0 {
        assert forall|name: Seq<char>| #[trigger]
            listed.contains(name) <==> fs.has(dir.child(name)) by {}
    } else {
        let front = entries.drop_last();
        let rest = names_below(front, dir);
        let short = FsV { entries: front };
        let n = entries.len() - 1;
        assert forall|i: int, j: int| 0 <= i < j < front.len() implies (#[trigger] front[i]).path
            != (#[trigger] front[j]).path by {
            assert(front[i] == entries[i]);
            assert(front[j] == entries[j]);
        }
        lemma_names_below(short, dir);
        let path = entries.last().path;
        let below = path.parts.len() > 0 && path.parent() == dir;
        if below {
            assert(path.parts =~= dir.parts.push(path.name()));
            assert(path == dir.child(path.name()));
        }
        assert forall|name: Seq<char>| #[trigger]
            listed.contains(name) <==> fs.has(dir.child(name)) by {
            let child = dir.child(name);
            assert(child.parts.len() > 0);
            assert(child.parts.drop_last() =~= dir.parts);
            assert(child.parent() == dir);
            assert(child.name() == name);
            if listed.contains(name) {
                let i = choose|i: int| 0 <= i < listed.len() && listed[i] == name;
                if below && i == rest.len() {
                    assert(entries[n].path == child);
                } else {
                    assert(rest[i] == name);
                    assert(rest.contains(name));
                    let j = short.index(child);
                    assert(front[j] == entries[j]);
                }
            }
            if fs.has(child) {
                let j = fs.index(child);
                if j == n {
                    assert(below);
                    assert(listed[rest.len() as int] == name);
                } else {
                    assert(front[j] == entries[j]);
                    assert(short.has(child));
                    assert(rest.contains(name));
                    let i = choose|i: int| 0 <= i < rest.len() && rest[i] == name;
                    assert(listed[i] == name);
                }
            }
        }
        if below {
            assert(!rest.contains(path.name())) by {
                if rest.contains(path.name()) {
                    assert(short.has(path));
                    let j = short.index(path);
                    assert(front[j] == entries[j]);
                    assert(entries[j].path != entries[n].path);
                }
            }
            assert forall|i: int, j: int| 0 <= i < listed.len() && 0 <= j < listed.len() && i
                != j implies listed[i] != listed[j] by {
                if i < rest.len() {
                    assert(rest.contains(listed[i]));
                }
                if j < rest.len() {
                    assert(rest.contains(listed[j]));
                }
            }
        }
    }
}

/// The operations keep the entries a tree.
pub proof fn lemma_after_wf(fs: FsV, action: ActionV)
    requires
        fs.wf(),
    ensures
        fs.after(action).wf(),
{
    if fs.accepts(action) {
        match action {
            ActionV::CopyFile(from, to) => {
                lemma_store_wf(fs, to, fs.node(from).unwrap());
            },
            ActionV::CreateDir(path) => {
                lemma_store_wf(fs, path, NodeV::Directory);
            },
            ActionV::RemoveFile(path) => {
                lemma_remove_file_wf(fs, path);
            },
            ActionV::RemoveDir(path) => {
                lemma_remove_dir_wf(fs, path);
            },
            _ => {},
        }
    }
}

/// Storing in a directory, or as a root, keeps the entries a tree, unless
/// a directory is replaced by a file.
pub proof fn lemma_store_wf(fs: FsV, path: PathV, node: NodeV)
    requires
        fs.wf(),
        path.parts.len() == 0 || fs.kind(path.parent()) == NodeKind::Directory,
        fs.kind(path) == NodeKind::Directory ==> node == NodeV::Directory,
    ensures
        fs.stored(path, node).wf(),
{
    lemma_stored(fs, path, node);
    lemma_closed_after_store(fs, path, node);
}

/// Removing a file keeps the entries a tree.
pub proof fn lemma_remove_file_wf(fs: FsV, path: PathV)
    requires
        fs.wf(),
        fs.kind(path) == NodeKind::File,
    ensures
        fs.removed(path).wf(),
{
    lemma_removed(fs, path);
    lemma_closed_after_remove(fs, path);
}

/// Removing a directory without entries keeps the entries a tree.
pub proof fn lemma_remove_dir_wf(fs: FsV, path: PathV)
    requires
        fs.wf(),
        fs.children(path).len() == 0,
    ensures
        fs.removed(path).wf(),
{
    reveal(FsV::has);
    reveal(FsV::index);
    lemma_removed(fs, path);
    lemma_names_below(fs, path);
    assert forall|i: int|
        0 <= i < fs.entries.len() && (#[trigger] fs.entries[i]).path.parts.len()
            > 0 implies fs.entries[i].path.parent() != path by {
        let q = fs.entries[i].path;
        if q.parent() == path {
            assert(q.parts =~= path.parts.push(q.name()));
            assert(q == path.child(q.name()));
            assert(fs.has(path.child(q.name())));
            assert(fs.children(path).contains(q.name()));
        }
    }
    lemma_closed_after_remove(fs, path);
}

proof fn lemma_closed_after_store(fs: FsV, path: PathV, node: NodeV)
    requires
        fs.wf(),
        path.parts.len() == 0 || fs.kind(path.parent()) == NodeKind::Directory,
        fs.kind(path) == NodeKind::Directory ==> node == NodeV::Directory,
    ensures
        fs.stored(path, node).closed(),
{
    reveal(FsV::has);
    reveal(FsV::index);
    let after = fs.stored(path, node);
    reveal(FsV::closed);
    lemma_stored(fs, path, node);
    assert forall|i: int|
        0 <= i < after.entries.len() && (#[trigger] after.entries[i]).path.parts.len()
            > 0 implies after.kind(after.entries[i].path.parent()) == NodeKind::Directory by {
        let q = after.entries[i].path;
        assert(after.has(q));
        if q == path {
            assert(after.node(q.parent()) == fs.node(q.parent()));
        } else {
            assert(fs.has(q));
            let j = fs.index(q);
            assert(fs.kind(fs.entries[j].path.parent()) == NodeKind::Directory);
            if q.parent() != path {
                assert(after.node(q.parent()) == fs.node(q.parent()));
            }
        }
    }
}

proof fn lemma_closed_after_remove(fs: FsV, path: PathV)
    requires
        fs.wf(),
        fs.kind(path) != NodeKind::Directory || forall|i: int|
            0 <= i < fs.entries.len() && (#[trigger] fs.entries[i]).path.parts.len() > 0
                ==> fs.entries[i].path.parent() != path,
    ensures
        fs.removed(path).closed(),
{
    reveal(FsV::has);
    reveal(FsV::index);
    let after = fs.removed(path);
    reveal(FsV::closed);
    lemma_removed(fs, path);
    assert forall|i: int|
        0 <= i < after.entries.len() && (#[trigger] after.entries[i]).path.parts.len()
            > 0 implies after.kind(after.entries[i].path.parent()) == NodeKind::Directory by {
        let q = after.entries[i].path;
        assert(after.has(q));
        assert(fs.has(q));
        let j = fs.index(q);
        assert(fs.kind(fs.entries[j].path.parent()) == NodeKind::Directory);
        assert(after.node(q.parent()) == fs.node(q.parent()));
    }
}

} // verus!
