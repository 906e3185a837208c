//! The node graph and path-addressed operations.
//!
//! The graph is an arena: an owning table from stable integer handles to
//! nodes, with all cross-references (directory entries, `.`/`..`) expressed
//! as handle lookups. Handles are assigned from a monotonically increasing
//! counter and never reused, so a freed slot simply stays empty.

use vstd::prelude::*;
use vstd::string::StrSliceExecFns;
use vstd::string::StringExecFns;
use vstd::utf8::encode_utf8;

use crate::errors::SysError;
use crate::paths::{
    dot, dotdot, is_dot, is_dotdot, keep_piece, lemma_segments_kept, path_segments, seg_views,
    split_path,
};
use crate::users::{
    spec_allows, spec_perms_of, AccessMap, Op, Perms, UserId, ADMIN_UID,
};

verus! {

/// The root directory's handle value.
pub const ROOT_UID: u64 = 0;

/// A node handle: opaque, monotonically increasing, never reused.
#[derive(Debug, Clone, Copy, PartialEq, Eq, Hash, Structural)]
pub struct NodeId(pub u64);

impl NodeId {
    /// Returns the current handle and advances the counter.
    pub fn next(&mut self) -> (r: Self)
        requires
            old(self).0 < u64::MAX,
        ensures
            r == *old(self),
            final(self).0 == old(self).0 + 1,
    {
        let this = *self;
        self.0 = self.0 + 1;
        this
    }
}

/// A file body: plain text, replaced whole on write.
#[derive(Debug)]
pub struct File {
    pub content: String,
}

/// The byte length of a file's text.
pub open spec fn file_size_spec(content: Seq<char>) -> nat {
    encode_utf8(content).len()
}

impl File {
    pub fn read(&self) -> (r: &str)
        ensures
            r@ == self.content@,
    {
        self.content.as_str()
    }

    /// Overwrite semantics: the whole content is replaced, never appended.
    pub fn write(&mut self, data: &str)
        ensures
            final(self).content@ == data@,
    {
        self.content = String::from_str(data);
    }

    pub fn size(&self) -> (r: usize)
        ensures
            r == file_size_spec(self.content@),
    {
        self.content.as_str().as_bytes().len()
    }
}

/// The entries of a directory, as the sequence of (name, handle) bindings
/// in insertion order.
pub type DirEntsV = Seq<(Seq<char>, u64)>;

/// The handle bound to `name`: the first binding that carries it.
pub open spec fn ents_lookup(ents: DirEntsV, name: Seq<char>) -> Option<u64>
    decreases ents.len(),
{
    if ents.len() == 0 {
        None
    } else if ents[0].0 == name {
        Some(ents[0].1)
    } else {
        ents_lookup(ents.drop_first(), name)
    }
}

pub open spec fn ents_contains(ents: DirEntsV, name: Seq<char>) -> bool {
    ents_lookup(ents, name) is Some
}

/// The entries with the first binding of `name` dropped.
pub open spec fn ents_remove(ents: DirEntsV, name: Seq<char>) -> DirEntsV
    decreases ents.len(),
{
    if ents.len() == 0 {
        ents
    } else if ents[0].0 == name {
        ents.drop_first()
    } else {
        seq![ents[0]] + ents_remove(ents.drop_first(), name)
    }
}

/// No name is bound twice.
pub open spec fn ents_names_unique(ents: DirEntsV) -> bool {
    forall|i: int, j: int|
        0 <= i < ents.len() && 0 <= j < ents.len() && i != j ==> (#[trigger] ents[i]).0 != (
        #[trigger] ents[j]).0
}

/// `ents_lookup` misses exactly when no binding carries the name.
pub proof fn lemma_lookup_none(ents: DirEntsV, name: Seq<char>)
    ensures
        (ents_lookup(ents, name) is None) <==> (forall|k: int|
            0 <= k < ents.len() ==> (#[trigger] ents[k]).0 != name),
    decreases ents.len(),
{
    if ents.len() > 0 {
        lemma_lookup_none(ents.drop_first(), name);
        if ents[0].0 != name {
            assert forall|k: int| 0 <= k < ents.len() && (#[trigger] ents[k]).0 == name implies !(
            ents_lookup(ents, name) is None) by {
                assert(ents.drop_first()[k - 1] == ents[k]);
            }
        }
    }
}

/// Skipping bindings that do not carry the name leaves the lookup unchanged.
pub proof fn lemma_lookup_skip(ents: DirEntsV, name: Seq<char>, i: int)
    requires
        0 <= i <= ents.len(),
        forall|j: int| 0 <= j < i ==> (#[trigger] ents[j]).0 != name,
    ensures
        ents_lookup(ents, name) == ents_lookup(ents.skip(i), name),
    decreases i,
{
    if i > 0 {
        assert(ents.len() > 0 && ents[0].0 != name);
        assert forall|j: int| 0 <= j < i - 1 implies (#[trigger] ents.drop_first()[j]).0
            != name by {
            assert(ents.drop_first()[j] == ents[j + 1]);
        }
        lemma_lookup_skip(ents.drop_first(), name, i - 1);
        assert(ents.drop_first().skip(i - 1) =~= ents.skip(i));
    } else {
        assert(ents.skip(0) =~= ents);
    }
}

/// Appending a binding only matters to a lookup that previously missed.
pub proof fn lemma_lookup_push(ents: DirEntsV, name: Seq<char>, e: (Seq<char>, u64))
    ensures
        ents_lookup(ents.push(e), name) == (if ents_lookup(ents, name) is Some {
            ents_lookup(ents, name)
        } else if e.0 == name {
            Some(e.1)
        } else {
            None
        }),
    decreases ents.len(),
{
    if ents.len() == 0 {
        assert(ents.push(e)[0] == e);
        assert(ents.push(e).drop_first() =~= Seq::<(Seq<char>, u64)>::empty());
    } else {
        assert(ents.push(e)[0] == ents[0]);
        assert(ents.push(e).drop_first() =~= ents.drop_first().push(e));
        lemma_lookup_push(ents.drop_first(), name, e);
    }
}

/// Dropping the first binding of `name` is removal at its index.
pub proof fn lemma_remove_at_first(ents: DirEntsV, name: Seq<char>, k: int)
    requires
        0 <= k < ents.len(),
        ents[k].0 == name,
        forall|j: int| 0 <= j < k ==> (#[trigger] ents[j]).0 != name,
    ensures
        ents_remove(ents, name) =~= ents.remove(k),
    decreases k,
{
    if k == 0 {
        assert(ents_remove(ents, name) == ents.drop_first());
        assert(ents.drop_first() =~= ents.remove(0));
    } else {
        assert(ents[0].0 != name);
        assert forall|j: int| 0 <= j < k - 1 implies (#[trigger] ents.drop_first()[j]).0
            != name by {
            assert(ents.drop_first()[j] == ents[j + 1]);
        }
        assert(ents.drop_first()[k - 1] == ents[k]);
        lemma_remove_at_first(ents.drop_first(), name, k - 1);
        assert(ents_remove(ents, name) == seq![ents[0]] + ents_remove(ents.drop_first(), name));
        assert(seq![ents[0]] + ents.drop_first().remove(k - 1) =~= ents.remove(k));
    }
}

/// Removing one name's binding leaves every other name's lookup unchanged.
pub proof fn lemma_lookup_ents_remove(ents: DirEntsV, name: Seq<char>, other: Seq<char>)
    requires
        name != other,
    ensures
        ents_lookup(ents_remove(ents, name), other) == ents_lookup(ents, other),
    decreases ents.len(),
{
    if ents.len() > 0 {
        if ents[0].0 == name {
            assert(ents_remove(ents, name) == ents.drop_first());
        } else {
            lemma_lookup_ents_remove(ents.drop_first(), name, other);
            let rest = ents_remove(ents.drop_first(), name);
            assert((seq![ents[0]] + rest)[0] == ents[0]);
            assert((seq![ents[0]] + rest).drop_first() =~= rest);
        }
    }
}

/// A directory body: named bindings to other nodes. Every directory carries
/// the two self-referential bindings `.` and `..`.
#[derive(Debug)]
pub struct Dir {
    pub nodes: Vec<(String, NodeId)>,
}

impl View for Dir {
    type V = DirEntsV;

    open spec fn view(&self) -> DirEntsV {
        Seq::new(self.nodes@.len() as nat, |i: int| (self.nodes@[i].0@, self.nodes@[i].1.0))
    }
}

impl Dir {
    /// A fresh directory bound to itself under `.` and to its parent under
    /// `..` (the root's parent is the root itself).
    pub fn new(id: NodeId, parent_id: NodeId) -> (r: Self)
        ensures
            r@ =~= seq![(dot(), id.0), (dotdot(), parent_id.0)],
    {
        let mut nodes: Vec<(String, NodeId)> = Vec::new();
        let dot_name = String::from_str(".");
        let dotdot_name = String::from_str("..");
        proof {
            reveal_strlit(".");
            reveal_strlit("..");
            assert(dot_name@ =~= dot());
            assert(dotdot_name@ =~= dotdot());
        }
        nodes.push((dot_name, id));
        nodes.push((dotdot_name, parent_id));
        let r = Dir { nodes };
        proof {
            assert(r@ =~= seq![(dot(), id.0), (dotdot(), parent_id.0)]);
        }
        r
    }

    /// The handle bound to `name`, if any.
    pub fn lookup(&self, name: &str) -> (r: Option<NodeId>)
        ensures
            match r {
                Some(id) => ents_lookup(self@, name@) == Some(id.0),
                None => ents_lookup(self@, name@) is None,
            },
    {
        let wanted = String::from_str(name);
        let mut i: usize = 0;
        while i < self.nodes.len()
            invariant
                0 <= i <= self.nodes@.len(),
                wanted@ == name@,
                forall|j: int| 0 <= j < i ==> (#[trigger] self@[j]).0 != name@,
            decreases self.nodes@.len() - i,
        {
            if self.nodes[i].0 == wanted {
                proof {
                    lemma_lookup_skip(self@, name@, i as int);
                    assert(self@.skip(i as int)[0] == self@[i as int]);
                }
                return Some(self.nodes[i].1);
            }
            i = i + 1;
        }
        proof {
            lemma_lookup_skip(self@, name@, self@.len() as int);
            assert(self@.skip(self@.len() as int) =~= Seq::<(Seq<char>, u64)>::empty());
        }
        None
    }

    pub fn contains(&self, name: &str) -> (r: bool)
        ensures
            r == ents_contains(self@, name@),
    {
        match self.lookup(name) {
            Some(_) => true,
            None => false,
        }
    }

    /// Appends a binding; callers first check that the name is free.
    pub fn add(&mut self, name: &str, id: NodeId)
        ensures
            final(self)@ =~= old(self)@.push((name@, id.0)),
    {
        let owned = String::from_str(name);
        self.nodes.push((owned, id));
    }

    /// Drops the binding of `name`, returning the handle it carried.
    pub fn rm(&mut self, name: &str) -> (r: Option<NodeId>)
        ensures
            match r {
                Some(id) => ents_lookup(old(self)@, name@) == Some(id.0) && final(self)@
                    =~= ents_remove(old(self)@, name@),
                None => ents_lookup(old(self)@, name@) is None && *final(self) == *old(self),
            },
    {
        let wanted = String::from_str(name);
        let mut i: usize = 0;
        while i < self.nodes.len()
            invariant
                *self == *old(self),
                0 <= i <= self.nodes@.len(),
                wanted@ == name@,
                forall|j: int| 0 <= j < i ==> (#[trigger] self@[j]).0 != name@,
            decreases self.nodes@.len() - i,
        {
            if self.nodes[i].0 == wanted {
                let id = self.nodes[i].1;
                proof {
                    lemma_lookup_skip(self@, name@, i as int);
                    assert(self@.skip(i as int)[0] == self@[i as int]);
                    lemma_remove_at_first(self@, name@, i as int);
                }
                let ghost pre = self@;
                self.nodes.remove(i);
                proof {
                    assert(self@ =~= pre.remove(i as int));
                }
                return Some(id);
            }
            i = i + 1;
        }
        proof {
            lemma_lookup_skip(self@, name@, self@.len() as int);
            assert(self@.skip(self@.len() as int) =~= Seq::<(Seq<char>, u64)>::empty());
        }
        None
    }

    pub fn len(&self) -> (r: usize)
        ensures
            r == self@.len(),
    {
        self.nodes.len()
    }

    /// Whether the directory has no entries besides `.` and `..`.
    pub fn is_empty(&self) -> (r: bool)
        ensures
            r == (self@.len() == 2),
    {
        self.nodes.len() == 2
    }
}

/// The two node kinds, as surfaced to callers.
#[derive(Debug, Clone, Copy, PartialEq, Eq, Structural)]
pub enum NodeTag {
    File,
    Dir,
}

/// A node body.
#[derive(Debug)]
pub enum NodeKind {
    File(File),
    Dir(Dir),
}

/// The mathematical face of a node body.
pub enum NodeKindV {
    File { content: Seq<char> },
    Dir { ents: DirEntsV },
}

/// The mathematical face of a node: its body and its access table.
#[verifier::ext_equal]
pub struct NodeV {
    pub kind: NodeKindV,
    pub acl: Map<u64, Perms>,
}

pub open spec fn node_kind_view(k: NodeKind) -> NodeKindV {
    match k {
        NodeKind::File(f) => NodeKindV::File { content: f.content@ },
        NodeKind::Dir(d) => NodeKindV::Dir { ents: d@ },
    }
}

pub open spec fn is_dir_node(n: NodeV) -> bool {
    n.kind is Dir
}

pub open spec fn node_content(n: NodeV) -> Seq<char> {
    match n.kind {
        NodeKindV::File { content } => content,
        NodeKindV::Dir { .. } => Seq::empty(),
    }
}

pub open spec fn node_ents(n: NodeV) -> DirEntsV {
    match n.kind {
        NodeKindV::Dir { ents } => ents,
        NodeKindV::File { .. } => Seq::empty(),
    }
}

pub open spec fn node_tag(n: NodeV) -> NodeTag {
    match n.kind {
        NodeKindV::File { .. } => NodeTag::File,
        NodeKindV::Dir { .. } => NodeTag::Dir,
    }
}

/// A file's size is its byte length; a directory's is its entry count,
/// `.` and `..` excluded.
pub open spec fn node_size_spec(n: NodeV) -> nat {
    match n.kind {
        NodeKindV::File { content } => file_size_spec(content),
        NodeKindV::Dir { ents } => (ents.len() - 2) as nat,
    }
}

/// A node: handle, body, and its own per-user access table.
#[derive(Debug)]
pub struct Node {
    pub id: NodeId,
    pub kind: NodeKind,
    pub perms: AccessMap,
}

impl View for Node {
    type V = NodeV;

    open spec fn view(&self) -> NodeV {
        NodeV { kind: node_kind_view(self.kind), acl: self.perms@ }
    }
}

impl Node {
    pub fn new_with_tag(id: NodeId, parent_id: NodeId, tag: NodeTag) -> (r: Self)
        ensures
            r.id == id,
            r@.acl == Map::<u64, Perms>::empty(),
            tag == NodeTag::File ==> r@.kind == (NodeKindV::File { content: Seq::<char>::empty() }),
            tag == NodeTag::Dir ==> r@.kind == (NodeKindV::Dir {
                ents: seq![(dot(), id.0), (dotdot(), parent_id.0)],
            }),
    {
        match tag {
            NodeTag::File => Self::new_file(id),
            NodeTag::Dir => Self::new_dir(id, parent_id),
        }
    }

    pub fn new(id: NodeId, kind: NodeKind) -> (r: Self)
        ensures
            r.id == id,
            r@ == (NodeV { kind: node_kind_view(kind), acl: Map::<u64, Perms>::empty() }),
    {
        Node { id, kind, perms: AccessMap::new() }
    }

    pub fn new_file(id: NodeId) -> (r: Self)
        ensures
            r.id == id,
            r@ == (NodeV {
                kind: NodeKindV::File { content: Seq::<char>::empty() },
                acl: Map::<u64, Perms>::empty(),
            }),
    {
        Node { id, kind: NodeKind::File(File { content: String::new() }), perms: AccessMap::new() }
    }

    pub fn new_dir(id: NodeId, parent_id: NodeId) -> (r: Self)
        ensures
            r.id == id,
            r@.acl == Map::<u64, Perms>::empty(),
            r@.kind == (NodeKindV::Dir { ents: seq![(dot(), id.0), (dotdot(), parent_id.0)] }),
    {
        let d = Dir::new(id, parent_id);
        proof {
            assert(d@ == seq![(dot(), id.0), (dotdot(), parent_id.0)]);
        }
        Node { id, kind: NodeKind::Dir(d), perms: AccessMap::new() }
    }

    pub fn as_file(&self) -> (r: Result<&File, SysError>)
        ensures
            match r {
                Ok(f) => !is_dir_node(self@) && f.content@ == node_content(self@),
                Err(e) => is_dir_node(self@) && e == SysError::TypeMismatch,
            },
    {
        match &self.kind {
            NodeKind::File(f) => Ok(f),
            NodeKind::Dir(_) => Err(SysError::TypeMismatch),
        }
    }

    pub fn as_dir(&self) -> (r: Result<&Dir, SysError>)
        ensures
            match r {
                Ok(d) => is_dir_node(self@) && d@ == node_ents(self@),
                Err(e) => !is_dir_node(self@) && e == SysError::TypeMismatch,
            },
    {
        match &self.kind {
            NodeKind::File(_) => Err(SysError::TypeMismatch),
            NodeKind::Dir(d) => Ok(d),
        }
    }

    /// Whether `uid` may perform every one of `ops` on this node.
    pub fn check_if_allowed(&self, uid: UserId, ops: &[Op]) -> (r: Result<(), SysError>)
        ensures
            match r {
                Ok(()) => spec_allows(self@.acl, uid.0, ops@),
                Err(e) => !spec_allows(self@.acl, uid.0, ops@) && e == SysError::PermissionDenied,
            },
    {
        if self.perms.allows(uid, ops) {
            Ok(())
        } else {
            Err(SysError::PermissionDenied)
        }
    }

    /// Overwrites `uid`'s grant on this node (a no-op for the administrator).
    pub fn set_perm(&mut self, uid: UserId, perms: Perms)
        ensures
            final(self).id == old(self).id,
            final(self)@.kind == old(self)@.kind,
            final(self)@.acl == (if uid.0 == ADMIN_UID {
                old(self)@.acl
            } else {
                old(self)@.acl.insert(uid.0, perms)
            }),
    {
        self.perms.set(uid, perms)
    }

    pub fn tag(&self) -> (r: NodeTag)
        ensures
            r == node_tag(self@),
    {
        match &self.kind {
            NodeKind::File(_) => NodeTag::File,
            NodeKind::Dir(_) => NodeTag::Dir,
        }
    }

    pub fn perms_for(&self, uid: UserId) -> (r: Perms)
        ensures
            r == spec_perms_of(self@.acl, uid.0),
    {
        self.perms.get(uid)
    }

    pub fn size(&self) -> (r: usize)
        requires
            is_dir_node(self@) ==> node_ents(self@).len() >= 2,
        ensures
            r == node_size_spec(self@),
    {
        match &self.kind {
            NodeKind::File(f) => f.size(),
            NodeKind::Dir(d) => d.len() - 2,
        }
    }
}

/// Read-checks a node for `uid`.
fn read_check(node: &Node, uid: UserId) -> (r: Result<(), SysError>)
    ensures
        match r {
            Ok(()) => spec_allows(node@.acl, uid.0, seq![Op::Read]),
            Err(e) => !spec_allows(node@.acl, uid.0, seq![Op::Read]) && e
                == SysError::PermissionDenied,
        },
{
    let ops = [Op::Read];
    proof {
        assert(ops@ =~= seq![Op::Read]);
    }
    node.check_if_allowed(uid, &ops)
}

/// Write-checks a node for `uid`.
fn write_check(node: &Node, uid: UserId) -> (r: Result<(), SysError>)
    ensures
        match r {
            Ok(()) => spec_allows(node@.acl, uid.0, seq![Op::Write]),
            Err(e) => !spec_allows(node@.acl, uid.0, seq![Op::Write]) && e
                == SysError::PermissionDenied,
        },
{
    let ops = [Op::Write];
    proof {
        assert(ops@ =~= seq![Op::Write]);
    }
    node.check_if_allowed(uid, &ops)
}

/// Exec-checks a node for `uid`.
fn exec_check(node: &Node, uid: UserId) -> (r: Result<(), SysError>)
    ensures
        match r {
            Ok(()) => spec_allows(node@.acl, uid.0, seq![Op::Exec]),
            Err(e) => !spec_allows(node@.acl, uid.0, seq![Op::Exec]) && e
                == SysError::PermissionDenied,
        },
{
    let ops = [Op::Exec];
    proof {
        assert(ops@ =~= seq![Op::Exec]);
    }
    node.check_if_allowed(uid, &ops)
}

/// Control-checks a node for `uid`.
fn control_check(node: &Node, uid: UserId) -> (r: Result<(), SysError>)
    ensures
        match r {
            Ok(()) => spec_allows(node@.acl, uid.0, seq![Op::Control]),
            Err(e) => !spec_allows(node@.acl, uid.0, seq![Op::Control]) && e
                == SysError::PermissionDenied,
        },
{
    let ops = [Op::Control];
    proof {
        assert(ops@ =~= seq![Op::Control]);
    }
    node.check_if_allowed(uid, &ops)
}

/// One line of a directory listing: the child's kind, name, the caller's
/// own grant on it, and its size.
#[derive(Debug)]
pub struct NodeEntry {
    pub tag: NodeTag,
    pub name: String,
    pub perms: Perms,
    pub size: usize,
}

/// The mathematical face of a listing line.
#[verifier::ext_equal]
pub struct NodeEntryV {
    pub tag: NodeTag,
    pub name: Seq<char>,
    pub perms: Perms,
    pub size: nat,
}

impl View for NodeEntry {
    type V = NodeEntryV;

    open spec fn view(&self) -> NodeEntryV {
        NodeEntryV { tag: self.tag, name: self.name@, perms: self.perms, size: self.size as nat }
    }
}


/// A successful lookup names some binding and returns its handle.
pub proof fn lemma_lookup_some(ents: DirEntsV, name: Seq<char>)
    requires
        ents_lookup(ents, name) is Some,
    ensures
        exists|k: int|
            0 <= k < ents.len() && (#[trigger] ents[k]).0 == name && ents[k].1 == ents_lookup(
                ents,
                name,
            )->Some_0,
    decreases ents.len(),
{
    if ents.len() > 0 && ents[0].0 != name {
        lemma_lookup_some(ents.drop_first(), name);
        let k = choose|k: int|
            0 <= k < ents.drop_first().len() && (#[trigger] ents.drop_first()[k]).0 == name
                && ents.drop_first()[k].1 == ents_lookup(ents.drop_first(), name)->Some_0;
        assert(ents[k + 1] == ents.drop_first()[k]);
    }
}

/// The mathematical face of the graph: the live nodes, keyed by handle, and
/// the next handle to be assigned.
#[verifier::ext_equal]
pub struct FsV {
    pub nodes: Map<u64, NodeV>,
    pub next_id: u64,
}

/// The live nodes of an arena.
pub open spec fn arena_view(s: Seq<Option<Node>>) -> Map<u64, NodeV> {
    Map::new(
        |id: u64| 0 <= id < s.len() && s[id as int] is Some,
        |id: u64| s[id as int]->Some_0@,
    )
}

/// Whether `name` is one of the two self-referential names.
pub open spec fn is_dot_name(name: Seq<char>) -> bool {
    name == dot() || name == dotdot()
}

/// Handle `c` is referenced from directory `d`'s entry at index `k` under a
/// plain (non-dot) name.
pub open spec fn refs(v: FsV, d: u64, k: int, c: u64) -> bool {
    &&& v.nodes.contains_key(d)
    &&& is_dir_node(v.nodes[d])
    &&& 0 <= k < node_ents(v.nodes[d]).len()
    &&& !is_dot_name(node_ents(v.nodes[d])[k].0)
    &&& node_ents(v.nodes[d])[k].1 == c
}

/// A single directory's shape: unique names, `.` bound to itself, `..`
/// present, and every entry bound to a live node.
pub open spec fn wf_dir(v: FsV, id: u64) -> bool {
    let ents = node_ents(v.nodes[id]);
    &&& ents_names_unique(ents)
    &&& ents_lookup(ents, dot()) == Some(id)
    &&& ents_contains(ents, dotdot())
    &&& forall|k: int| 0 <= k < ents.len() ==> v.nodes.contains_key((#[trigger] ents[k]).1)
}

/// The graph invariant: a live root directory whose `..` is itself; every
/// live handle below the counter; every directory well shaped; every plain
/// entry pointing strictly forward (so no node is its own child) and no two
/// plain entries sharing a target; and every non-root directory's `..`
/// naming the directory that holds it.
pub open spec fn wf_graph(v: FsV) -> bool {
    &&& v.nodes.contains_key(ROOT_UID)
    &&& is_dir_node(v.nodes[ROOT_UID])
    &&& ents_lookup(node_ents(v.nodes[ROOT_UID]), dotdot()) == Some(ROOT_UID)
    &&& forall|id: u64| #[trigger] v.nodes.contains_key(id) ==> id < v.next_id
    &&& forall|id: u64|
        #[trigger] v.nodes.contains_key(id) && is_dir_node(v.nodes[id]) ==> wf_dir(v, id)
    &&& forall|d: u64, k: int, c: u64| #[trigger] refs(v, d, k, c) ==> c > d
    &&& forall|d1: u64, k1: int, d2: u64, k2: int, c: u64|
        #[trigger] refs(v, d1, k1, c) && #[trigger] refs(v, d2, k2, c) ==> d1 == d2 && k1 == k2
    &&& forall|y: u64|
        #[trigger] v.nodes.contains_key(y) && is_dir_node(v.nodes[y]) && y != ROOT_UID ==> ({
            let p = ents_lookup(node_ents(v.nodes[y]), dotdot());
            p is Some && exists|k: int| refs(v, p->Some_0, k, y)
        })
}

/// The arena of nodes. The counter equals the number of slots ever
/// allocated; a removed node leaves an empty slot behind, so handles are
/// never reused.
#[derive(Debug)]
pub struct Fs {
    pub nodes: Vec<Option<Node>>,
    pub node_counter: NodeId,
}

impl View for Fs {
    type V = FsV;

    open spec fn view(&self) -> FsV {
        FsV { nodes: arena_view(self.nodes@), next_id: self.node_counter.0 }
    }
}

proof fn lemma_arena_update(s: Seq<Option<Node>>, i: u64, n: Node)
    requires
        i < s.len(),
    ensures
        arena_view(s.update(i as int, Some(n))) =~= arena_view(s).insert(i, n@),
{
    assert forall|id: u64| #![auto] arena_view(s.update(i as int, Some(n))).contains_key(id)
        == arena_view(s).insert(i, n@).contains_key(id) by {}
}

proof fn lemma_arena_clear(s: Seq<Option<Node>>, i: u64)
    requires
        i < s.len(),
    ensures
        arena_view(s.update(i as int, None)) =~= arena_view(s).remove(i),
{
    assert forall|id: u64| #![auto] arena_view(s.update(i as int, None)).contains_key(id)
        == arena_view(s).remove(i).contains_key(id) by {}
}

proof fn lemma_arena_push(s: Seq<Option<Node>>, n: Node)
    requires
        s.len() < u64::MAX,
    ensures
        arena_view(s.push(Some(n))) =~= arena_view(s).insert(s.len() as u64, n@),
{
    assert forall|id: u64| #![auto] arena_view(s.push(Some(n))).contains_key(id) == arena_view(
        s,
    ).insert(s.len() as u64, n@).contains_key(id) by {
        if id < s.len() {
            assert(s.push(Some(n))[id as int] == s[id as int]);
        }
    }
    assert forall|id: u64| #![auto] arena_view(s.push(Some(n))).contains_key(id) implies
        arena_view(s.push(Some(n)))[id] == arena_view(s).insert(s.len() as u64, n@)[id] by {
        if id < s.len() {
            assert(s.push(Some(n))[id as int] == s[id as int]);
        }
    }
}

/// The fresh graph: a root directory alone, owning itself through both
/// dot bindings, with an empty access table.
pub open spec fn fresh_graph() -> FsV {
    FsV {
        nodes: Map::<u64, NodeV>::empty().insert(
            ROOT_UID,
            NodeV {
                kind: NodeKindV::Dir { ents: seq![(dot(), ROOT_UID), (dotdot(), ROOT_UID)] },
                acl: Map::<u64, Perms>::empty(),
            },
        ),
        next_id: 1,
    }
}

impl Fs {
    /// The representation invariant: the counter equals the slot count, and
    /// every live slot holds the node carrying its own index as handle.
    pub open spec fn rep_inv(&self) -> bool {
        &&& self.node_counter.0 == self.nodes@.len()
        &&& forall|i: int|
            0 <= i < self.nodes@.len() && self.nodes@[i] is Some ==> (
            #[trigger] self.nodes@[i])->Some_0.id.0 == i
    }

    /// The full invariant: representation plus the graph shape.
    pub open spec fn inv(&self) -> bool {
        self.rep_inv() && wf_graph(self@)
    }

    /// A fresh graph holding only the root directory.
    pub fn new() -> (r: Self)
        ensures
            r.inv(),
            r@ == fresh_graph(),
    {
        let mut node_counter = NodeId(ROOT_UID);
        let root_id = node_counter.next();
        let root = Node::new_dir(root_id, root_id);
        let mut nodes: Vec<Option<Node>> = Vec::new();
        nodes.push(Some(root));
        let r = Fs { nodes, node_counter };
        proof {
            assert(r@.nodes =~= fresh_graph().nodes);
            assert(r@ =~= fresh_graph());
            let ents = node_ents(r@.nodes[ROOT_UID]);
            assert(ents[0] == (dot(), ROOT_UID));
            assert(ents[1] == (dotdot(), ROOT_UID));
            assert(ents_lookup(ents, dot()) == Some(ROOT_UID));
            assert(ents.drop_first()[0] == (dotdot(), ROOT_UID));
            assert(dot().len() == 1 && dotdot().len() == 2);
            assert(dot() != dotdot());
            assert(ents.drop_first().len() == 1);
            assert(ents_lookup(ents.drop_first(), dotdot()) == Some(ROOT_UID));
            assert(ents_lookup(ents, dotdot()) == Some(ROOT_UID));
            assert(wf_dir(r@, ROOT_UID));
            assert forall|d: u64, k: int, c: u64| #[trigger] refs(r@, d, k, c) implies c > d by {
                assert(!is_dot_name(node_ents(r@.nodes[d])[k].0));
            }
            assert(wf_graph(r@));
        }
        r
    }

    /// Borrows the live node at `id`.
    fn get(&self, id: u64) -> (r: &Node)
        requires
            self.rep_inv(),
            self@.nodes.contains_key(id),
        ensures
            r@ == self@.nodes[id],
            r.id.0 == id,
    {
        let _len = self.nodes.len();
        let i = id as usize;
        match &self.nodes[i] {
            Some(node) => node,
            None => vstd::pervasive::unreached(),
        }
    }

    /// Removes and returns the live node at `id`, leaving its slot empty.
    fn take_node(&mut self, id: u64) -> (r: Node)
        requires
            old(self).rep_inv(),
            old(self)@.nodes.contains_key(id),
        ensures
            final(self).rep_inv(),
            final(self)@.nodes == old(self)@.nodes.remove(id),
            final(self)@.next_id == old(self)@.next_id,
            r@ == old(self)@.nodes[id],
            r.id.0 == id,
            final(self).nodes@.len() == old(self).nodes@.len(),
            final(self).nodes@[id as int] is None,
    {
        let _len = self.nodes.len();
        let i = id as usize;
        let t = {
            let slot = &mut self.nodes[i];
            slot.take()
        };
        proof {
            lemma_arena_clear(old(self).nodes@, id);
            assert(self.nodes@ =~= old(self).nodes@.update(i as int, None));
            assert(self@.nodes =~= old(self)@.nodes.remove(id));
        }
        match t {
            Some(node) => node,
            None => vstd::pervasive::unreached(),
        }
    }

    /// Fills the (empty) slot at `id` with a node carrying that handle.
    fn put_node(&mut self, id: u64, node: Node)
        requires
            old(self).rep_inv(),
            id < old(self).nodes@.len(),
            node.id.0 == id,
        ensures
            final(self).rep_inv(),
            final(self)@.nodes == old(self)@.nodes.insert(id, node@),
            final(self)@.next_id == old(self)@.next_id,
    {
        let _len = self.nodes.len();
        let i = id as usize;
        self.nodes[i] = Some(node);
        proof {
            lemma_arena_update(old(self).nodes@, id, node);
            assert(self@.nodes =~= old(self)@.nodes.insert(id, node@));
        }
    }

    /// Appends a fresh node under the next handle and advances the counter.
    fn push_node(&mut self, node: Node)
        requires
            old(self).rep_inv(),
            node.id.0 == old(self).nodes@.len(),
        ensures
            final(self).rep_inv(),
            final(self)@.nodes == old(self)@.nodes.insert(old(self)@.next_id, node@),
            final(self)@.next_id == old(self)@.next_id + 1,
    {
        self.nodes.push(Some(node));
        let _len = self.nodes.len();
        proof {
            lemma_arena_push(old(self).nodes@, node);
            assert(self@.nodes =~= old(self)@.nodes.insert(old(self)@.next_id, node@));
        }
        self.node_counter = NodeId(self.node_counter.0 + 1);
    }
}

/// Resolution from `cur` through the remaining segments: at each step the
/// current node must be a directory, the segment must be bound in it, and
/// the caller must hold `read` on the child it names.
pub open spec fn spec_resolve_from(v: FsV, uid: u64, cur: u64, segs: Seq<Seq<char>>) -> Result<
    u64,
    SysError,
>
    decreases segs.len(),
{
    if segs.len() == 0 {
        Ok(cur)
    } else {
        match v.nodes[cur].kind {
            NodeKindV::File { .. } => Err(SysError::TypeMismatch),
            NodeKindV::Dir { ents } => {
                match ents_lookup(ents, segs[0]) {
                    None => Err(SysError::NotFound),
                    Some(child) => if !spec_allows(v.nodes[child].acl, uid, seq![Op::Read]) {
                        Err(SysError::PermissionDenied)
                    } else {
                        spec_resolve_from(v, uid, child, segs.drop_first())
                    },
                }
            }
        }
    }
}

/// Resolution always starts at the root, which is itself read-checked.
pub open spec fn spec_resolve(v: FsV, uid: u64, segs: Seq<Seq<char>>) -> Result<u64, SysError> {
    if !spec_allows(v.nodes[ROOT_UID].acl, uid, seq![Op::Read]) {
        Err(SysError::PermissionDenied)
    } else {
        spec_resolve_from(v, uid, ROOT_UID, segs)
    }
}

impl Fs {
    /// Resolves the first `n` segments, read-checking every fetched node.
    fn resolve_n(&self, uid: UserId, segs: &Vec<String>, n: usize) -> (r: Result<u64, SysError>)
        requires
            self.inv(),
            n <= segs@.len(),
        ensures
            r == spec_resolve(self@, uid.0, seg_views(segs@).take(n as int)),
            r is Ok ==> self@.nodes.contains_key(r->Ok_0),
    {
        let ghost views = seg_views(segs@).take(n as int);
        let root = self.get(ROOT_UID);
        match read_check(root, uid) {
            Err(e) => {
                return Err(e);
            }
            Ok(()) => {}
        }
        let mut cur: u64 = ROOT_UID;
        let mut i: usize = 0;
        proof {
            assert(views.skip(0) =~= views);
        }
        while i < n
            invariant
                self.inv(),
                n <= segs@.len(),
                0 <= i <= n,
                views == seg_views(segs@).take(n as int),
                self@.nodes.contains_key(cur),
                spec_allows(self@.nodes[ROOT_UID].acl, uid.0, seq![Op::Read]),
                spec_resolve_from(self@, uid.0, cur, views.skip(i as int)) == spec_resolve_from(
                    self@,
                    uid.0,
                    ROOT_UID,
                    views,
                ),
            decreases n - i,
        {
            proof {
                assert(views.skip(i as int).len() > 0);
                assert(views.skip(i as int)[0] == segs@[i as int]@);
            }
            let node = self.get(cur);
            let dir = match node.as_dir() {
                Ok(d) => d,
                Err(e) => {
                    return Err(e);
                }
            };
            let child = match dir.lookup(segs[i].as_str()) {
                Some(c) => c,
                None => {
                    return Err(SysError::NotFound);
                }
            };
            proof {
                lemma_lookup_some(dir@, segs@[i as int]@);
                assert(self@.nodes.contains_key(child.0));
            }
            let cnode = self.get(child.0);
            match read_check(cnode, uid) {
                Err(e) => {
                    return Err(e);
                }
                Ok(()) => {}
            }
            cur = child.0;
            i = i + 1;
            proof {
                assert(views.skip(i - 1 as int).drop_first() =~= views.skip(i as int));
            }
        }
        proof {
            assert(views.skip(n as int) =~= Seq::<Seq<char>>::empty());
        }
        Ok(cur)
    }
}


/// Two graphs with the same skeleton: same handles, same counter, and the
/// same body kind and entries at every handle (access tables may differ).
pub open spec fn same_structure(v1: FsV, v2: FsV) -> bool {
    &&& v2.next_id == v1.next_id
    &&& v2.nodes.dom() =~= v1.nodes.dom()
    &&& forall|id: u64|
        v1.nodes.contains_key(id) ==> (is_dir_node(#[trigger] v2.nodes[id]) == is_dir_node(
            v1.nodes[id],
        ) && node_ents(v2.nodes[id]) == node_ents(v1.nodes[id]))
}

/// Two graphs with the same skeleton and the same access tables: they
/// resolve every path alike.
pub open spec fn same_shape(v1: FsV, v2: FsV) -> bool {
    &&& same_structure(v1, v2)
    &&& forall|id: u64|
        v1.nodes.contains_key(id) ==> (#[trigger] v2.nodes[id]).acl == v1.nodes[id].acl
}

/// The graph invariant does not look at file contents or access tables.
proof fn lemma_wf_same_structure(v1: FsV, v2: FsV)
    requires
        wf_graph(v1),
        same_structure(v1, v2),
    ensures
        wf_graph(v2),
{
    assert forall|id: u64|
        #[trigger] v2.nodes.contains_key(id) && is_dir_node(v2.nodes[id]) implies wf_dir(
        v2,
        id,
    ) by {
        assert(v1.nodes.contains_key(id));
        assert(wf_dir(v1, id));
        assert(node_ents(v2.nodes[id]) == node_ents(v1.nodes[id]));
        let ents = node_ents(v2.nodes[id]);
        assert forall|k: int| 0 <= k < ents.len() implies v2.nodes.contains_key(
            (#[trigger] ents[k]).1,
        ) by {
            assert(v1.nodes.contains_key(ents[k].1));
        }
    }
    assert forall|d: u64, k: int, c: u64| #[trigger] refs(v2, d, k, c) implies refs(v1, d, k, c)
        && c > d by {
        assert(v1.nodes.contains_key(d));
    }
    assert forall|d1: u64, k1: int, d2: u64, k2: int, c: u64|
        #[trigger] refs(v2, d1, k1, c) && #[trigger] refs(v2, d2, k2, c) implies d1 == d2 && k1
        == k2 by {
        assert(refs(v1, d1, k1, c) && refs(v1, d2, k2, c));
    }
    assert forall|y: u64|
        #[trigger] v2.nodes.contains_key(y) && is_dir_node(v2.nodes[y]) && y != ROOT_UID implies ({
        let p = ents_lookup(node_ents(v2.nodes[y]), dotdot());
        p is Some && exists|k: int| refs(v2, p->Some_0, k, y)
    }) by {
        assert(v1.nodes.contains_key(y) && is_dir_node(v1.nodes[y]));
        let p = ents_lookup(node_ents(v1.nodes[y]), dotdot());
        assert(p is Some);
        let k = choose|k: int| refs(v1, p->Some_0, k, y);
        assert(v2.nodes.contains_key(p->Some_0));
        assert(refs(v2, p->Some_0, k, y));
    }
}

/// Resolution only reads the skeleton and the access tables, so graphs of
/// the same shape resolve every path alike.
pub proof fn lemma_resolve_from_same_shape(
    v1: FsV,
    v2: FsV,
    uid: u64,
    cur: u64,
    segs: Seq<Seq<char>>,
)
    requires
        wf_graph(v1),
        same_shape(v1, v2),
        v1.nodes.contains_key(cur),
    ensures
        spec_resolve_from(v2, uid, cur, segs) == spec_resolve_from(v1, uid, cur, segs),
    decreases segs.len(),
{
    if segs.len() > 0 {
        if is_dir_node(v1.nodes[cur]) {
            let ents = node_ents(v1.nodes[cur]);
            match ents_lookup(ents, segs[0]) {
                None => {}
                Some(child) => {
                    lemma_lookup_some(ents, segs[0]);
                    assert(wf_dir(v1, cur));
                    assert(v1.nodes.contains_key(child));
                    lemma_resolve_from_same_shape(v1, v2, uid, child, segs.drop_first());
                }
            }
        }
    }
}

/// Resolution from the root under the same shape.
pub proof fn lemma_resolve_same_shape(v1: FsV, v2: FsV, uid: u64, segs: Seq<Seq<char>>)
    requires
        wf_graph(v1),
        same_shape(v1, v2),
    ensures
        spec_resolve(v2, uid, segs) == spec_resolve(v1, uid, segs),
{
    lemma_resolve_from_same_shape(v1, v2, uid, ROOT_UID, segs);
}

/// The read operation: resolve (read-checked at every level), then take the
/// text of the resolved file.
pub open spec fn spec_read(v: FsV, uid: u64, segs: Seq<Seq<char>>) -> Result<Seq<char>, SysError> {
    match spec_resolve(v, uid, segs) {
        Err(e) => Err(e),
        Ok(id) => if is_dir_node(v.nodes[id]) {
            Err(SysError::TypeMismatch)
        } else {
            Ok(node_content(v.nodes[id]))
        },
    }
}

/// The write operation: resolve, demand `write` on the target, and replace
/// the file's whole content.
pub open spec fn spec_write(v: FsV, uid: u64, segs: Seq<Seq<char>>, data: Seq<char>) -> Result<
    FsV,
    SysError,
> {
    match spec_resolve(v, uid, segs) {
        Err(e) => Err(e),
        Ok(id) => if !spec_allows(v.nodes[id].acl, uid, seq![Op::Write]) {
            Err(SysError::PermissionDenied)
        } else if is_dir_node(v.nodes[id]) {
            Err(SysError::TypeMismatch)
        } else {
            Ok(
                FsV {
                    nodes: v.nodes.insert(
                        id,
                        NodeV { kind: NodeKindV::File { content: data }, acl: v.nodes[id].acl },
                    ),
                    next_id: v.next_id,
                },
            )
        },
    }
}

/// The exec operation: resolve (read-checked), then demand `exec` on the
/// leaf. No execution happens; the check itself is the result.
pub open spec fn spec_exec(v: FsV, uid: u64, segs: Seq<Seq<char>>) -> Result<(), SysError> {
    match spec_resolve(v, uid, segs) {
        Err(e) => Err(e),
        Ok(id) => if !spec_allows(v.nodes[id].acl, uid, seq![Op::Exec]) {
            Err(SysError::PermissionDenied)
        } else {
            Ok(())
        },
    }
}

/// One listing line for the child bound as `name` at `id`.
pub open spec fn spec_entry(v: FsV, uid: u64, name: Seq<char>, id: u64) -> NodeEntryV {
    NodeEntryV {
        tag: node_tag(v.nodes[id]),
        name,
        perms: spec_perms_of(v.nodes[id].acl, uid),
        size: node_size_spec(v.nodes[id]),
    }
}

/// The visible lines of a listing: `.` and `..` are never shown, and a
/// child the caller cannot read is silently omitted rather than failing
/// the whole call.
pub open spec fn spec_ls_ents(v: FsV, uid: u64, ents: DirEntsV) -> Seq<NodeEntryV>
    decreases ents.len(),
{
    if ents.len() == 0 {
        Seq::empty()
    } else {
        let rest = spec_ls_ents(v, uid, ents.drop_first());
        if is_dot_name(ents[0].0) || !spec_allows(v.nodes[ents[0].1].acl, uid, seq![Op::Read]) {
            rest
        } else {
            seq![spec_entry(v, uid, ents[0].0, ents[0].1)] + rest
        }
    }
}

/// The list operation: resolve, require a directory, and show its visible
/// children in entry order.
pub open spec fn spec_ls(v: FsV, uid: u64, segs: Seq<Seq<char>>) -> Result<
    Seq<NodeEntryV>,
    SysError,
> {
    match spec_resolve(v, uid, segs) {
        Err(e) => Err(e),
        Ok(id) => if !is_dir_node(v.nodes[id]) {
            Err(SysError::TypeMismatch)
        } else {
            Ok(spec_ls_ents(v, uid, node_ents(v.nodes[id])))
        },
    }
}

/// The views of a built listing.
pub open spec fn entry_views(s: Seq<NodeEntry>) -> Seq<NodeEntryV> {
    Seq::new(s.len(), |i: int| s[i]@)
}

impl Fs {
    /// Reads a file's text.
    pub fn read<'a>(&'a self, uid: UserId, path: &str) -> (r: Result<&'a str, SysError>)
        requires
            self.inv(),
        ensures
            match spec_read(self@, uid.0, path_segments(path@)) {
                Ok(c) => r is Ok && r->Ok_0@ == c,
                Err(e) => r == Err::<&'a str, SysError>(e),
            },
    {
        let segs = split_path(path);
        let n = segs.len();
        proof {
            assert(seg_views(segs@).take(n as int) =~= seg_views(segs@));
        }
        let id = match self.resolve_n(uid, &segs, n) {
            Ok(id) => id,
            Err(e) => {
                return Err(e);
            }
        };
        let node = self.get(id);
        let file = match node.as_file() {
            Ok(f) => f,
            Err(e) => {
                return Err(e);
            }
        };
        Ok(file.read())
    }

    /// Writes a file's text, replacing it whole.
    pub fn write(&mut self, uid: UserId, path: &str, data: &str) -> (r: Result<(), SysError>)
        requires
            old(self).inv(),
        ensures
            final(self).inv(),
            match spec_write(old(self)@, uid.0, path_segments(path@), data@) {
                Ok(v2) => r is Ok && final(self)@ == v2,
                Err(e) => r == Err::<(), SysError>(e) && final(self)@ == old(self)@
                    && *final(self) == *old(self),
            },
    {
        let segs = split_path(path);
        let n = segs.len();
        proof {
            assert(seg_views(segs@).take(n as int) =~= seg_views(segs@));
        }
        let id = match self.resolve_n(uid, &segs, n) {
            Ok(id) => id,
            Err(e) => {
                return Err(e);
            }
        };
        {
            let node = self.get(id);
            match write_check(node, uid) {
                Err(e) => {
                    return Err(e);
                }
                Ok(()) => {}
            }
            match node.as_file() {
                Ok(_) => {}
                Err(e) => {
                    return Err(e);
                }
            }
        }
        let node = self.take_node(id);
        let Node { id: nid, kind, perms } = node;
        let mut file = match kind {
            NodeKind::File(f) => f,
            NodeKind::Dir(_) => vstd::pervasive::unreached(),
        };
        file.write(data);
        self.put_node(id, Node { id: nid, kind: NodeKind::File(file), perms });
        proof {
            let v1 = old(self)@;
            let v2 = self@;
            assert(v2.nodes =~= v1.nodes.insert(
                id,
                NodeV { kind: NodeKindV::File { content: data@ }, acl: v1.nodes[id].acl },
            ));
            assert(same_structure(v1, v2));
            lemma_wf_same_structure(v1, v2);
        }
        Ok(())
    }

    /// Checks that `uid` may execute the file at `path`; performs nothing.
    pub fn exec(&mut self, uid: UserId, path: &str) -> (r: Result<(), SysError>)
        requires
            old(self).inv(),
        ensures
            final(self).inv(),
            *final(self) == *old(self),
            r == spec_exec(old(self)@, uid.0, path_segments(path@)),
    {
        let segs = split_path(path);
        let n = segs.len();
        proof {
            assert(seg_views(segs@).take(n as int) =~= seg_views(segs@));
        }
        let id = match self.resolve_n(uid, &segs, n) {
            Ok(id) => id,
            Err(e) => {
                return Err(e);
            }
        };
        let node = self.get(id);
        let r = exec_check(node, uid);
        proof {
            assert(self@ == old(self)@);
        }
        match r {
            Ok(()) => Ok(()),
            Err(e) => Err(e),
        }
    }

    /// Lists a directory's visible entries.
    #[verifier::rlimit(60)]
    pub fn ls(&self, uid: UserId, path: &str) -> (r: Result<Vec<NodeEntry>, SysError>)
        requires
            self.inv(),
        ensures
            match spec_ls(self@, uid.0, path_segments(path@)) {
                Ok(es) => r is Ok && entry_views(r->Ok_0@) == es,
                Err(e) => r is Err && r->Err_0 == e,
            },
    {
        let segs = split_path(path);
        let n = segs.len();
        proof {
            assert(seg_views(segs@).take(n as int) =~= seg_views(segs@));
        }
        let id = match self.resolve_n(uid, &segs, n) {
            Ok(id) => id,
            Err(e) => {
                return Err(e);
            }
        };
        let node = self.get(id);
        let dir = match node.as_dir() {
            Ok(d) => d,
            Err(e) => {
                return Err(e);
            }
        };
        let ghost ents = dir@;
        let mut out: Vec<NodeEntry> = Vec::new();
        let mut i: usize = 0;
        proof {
            assert(wf_dir(self@, id));
            assert(ents.skip(0) =~= ents);
        }
        while i < dir.len()
            invariant
                self.inv(),
                0 <= i <= ents.len(),
                ents == dir@,
                dir@ == node_ents(self@.nodes[id]),
                self@.nodes.contains_key(id),
                wf_dir(self@, id),
                entry_views(out@) + spec_ls_ents(self@, uid.0, ents.skip(i as int))
                    =~= spec_ls_ents(self@, uid.0, ents),
            decreases ents.len() - i,
        {
            proof {
                assert(ents.skip(i as int)[0] == ents[i as int]);
                assert(ents.skip(i as int).drop_first() =~= ents.skip(i + 1 as int));
            }
            let ghost pre_out = out@;
            let name = &dir.nodes[i].0;
            let child_id = dir.nodes[i].1;
            proof {
                assert((name@, child_id.0) == ents[i as int]);
                assert(self@.nodes.contains_key(child_id.0));
            }
            if !is_dot(name.as_str()) && !is_dotdot(name.as_str()) {
                let child = self.get(child_id.0);
                let readable = match read_check(child, uid) {
                    Ok(()) => true,
                    Err(_) => false,
                };
                if readable {
                    proof {
                        if is_dir_node(child@) {
                            let cents = node_ents(child@);
                            assert(wf_dir(self@, child_id.0));
                            lemma_lookup_some(cents, dot());
                            lemma_lookup_some(cents, dotdot());
                            let k1 = choose|k: int|
                                0 <= k < cents.len() && (#[trigger] cents[k]).0 == dot()
                                    && cents[k].1 == ents_lookup(cents, dot())->Some_0;
                            let k2 = choose|k: int|
                                0 <= k < cents.len() && (#[trigger] cents[k]).0 == dotdot()
                                    && cents[k].1 == ents_lookup(cents, dotdot())->Some_0;
                            assert(dot().len() == 1 && dotdot().len() == 2);
                            assert(k1 != k2);
                            assert(cents.len() >= 2);
                        }
                    }
                    let entry = NodeEntry {
                        tag: child.tag(),
                        name: name.clone(),
                        perms: child.perms_for(uid),
                        size: child.size(),
                    };
                    out.push(entry);
                    proof {
                        assert(entry_views(out@) =~= entry_views(pre_out).push(
                            spec_entry(self@, uid.0, ents[i as int].0, ents[i as int].1),
                        ));
                        assert(entry_views(pre_out).push(
                            spec_entry(self@, uid.0, ents[i as int].0, ents[i as int].1),
                        ) + spec_ls_ents(self@, uid.0, ents.skip(i + 1 as int)) =~= entry_views(
                            pre_out,
                        ) + (seq![
                            spec_entry(self@, uid.0, ents[i as int].0, ents[i as int].1),
                        ] + spec_ls_ents(self@, uid.0, ents.skip(i + 1 as int))));
                    }
                }
            }
            i = i + 1;
        }
        proof {
            assert(ents.skip(ents.len() as int) =~= Seq::<(Seq<char>, u64)>::empty());
            assert(entry_views(out@) + Seq::<NodeEntryV>::empty() =~= entry_views(out@));
        }
        Ok(out)
    }
}


/// The create operation: resolve the parent (read-checked along the way,
/// then `write`-checked), reject a path without a usable final name, and
/// bind a fresh node under it.
pub open spec fn spec_create(v: FsV, uid: u64, segs: Seq<Seq<char>>, tag: NodeTag) -> Result<
    FsV,
    SysError,
> {
    let psegs = if segs.len() == 0 {
        segs
    } else {
        segs.drop_last()
    };
    match spec_resolve(v, uid, psegs) {
        Err(e) => Err(e),
        Ok(pid) => if !spec_allows(v.nodes[pid].acl, uid, seq![Op::Write]) {
            Err(SysError::PermissionDenied)
        } else if segs.len() == 0 || segs.last() == dotdot() {
            Err(SysError::NotFound)
        } else if !is_dir_node(v.nodes[pid]) {
            Err(SysError::TypeMismatch)
        } else if ents_contains(node_ents(v.nodes[pid]), segs.last()) {
            Err(SysError::AlreadyExists)
        } else {
            Ok(create_result(v, pid, segs.last(), tag))
        },
    }
}

/// The graph after binding a fresh node of kind `tag` as `name` in `pid`.
pub open spec fn create_result(v: FsV, pid: u64, name: Seq<char>, tag: NodeTag) -> FsV {
    let nid = v.next_id;
    let child = if tag == NodeTag::File {
        NodeV { kind: NodeKindV::File { content: Seq::empty() }, acl: Map::empty() }
    } else {
        NodeV {
            kind: NodeKindV::Dir { ents: seq![(dot(), nid), (dotdot(), pid)] },
            acl: Map::empty(),
        }
    };
    let parent2 = NodeV {
        kind: NodeKindV::Dir { ents: node_ents(v.nodes[pid]).push((name, nid)) },
        acl: v.nodes[pid].acl,
    };
    FsV { nodes: v.nodes.insert(pid, parent2).insert(nid, child), next_id: (nid + 1) as u64 }
}

/// Binding a fresh node under a free name preserves the graph invariant.
proof fn lemma_wf_create(v: FsV, pid: u64, name: Seq<char>, tag: NodeTag)
    requires
        wf_graph(v),
        v.nodes.contains_key(pid),
        is_dir_node(v.nodes[pid]),
        !ents_contains(node_ents(v.nodes[pid]), name),
        v.next_id < u64::MAX,
    ensures
        wf_graph(create_result(v, pid, name, tag)),
{
    let nid = v.next_id;
    let v2 = create_result(v, pid, name, tag);
    let ents = node_ents(v.nodes[pid]);
    let ents2 = node_ents(v2.nodes[pid]);
    assert(ents2 == ents.push((name, nid)));
    assert(wf_dir(v, pid));
    lemma_lookup_none(ents, name);
    assert(pid < nid);
    assert(!v.nodes.contains_key(nid));
    lemma_lookup_push(ents, dot(), (name, nid));
    lemma_lookup_push(ents, dotdot(), (name, nid));
    // the fresh name is a plain one, since `.` and `..` are always bound
    assert(name != dot());
    assert(name != dotdot());
    // the fresh child is well shaped
    if tag != NodeTag::File {
        let cents = node_ents(v2.nodes[nid]);
        assert(cents[0] == (dot(), nid));
        assert(cents[1] == (dotdot(), pid));
        assert(dot().len() == 1 && dotdot().len() == 2);
        assert(cents.drop_first().len() == 1);
        assert(cents.drop_first()[0] == (dotdot(), pid));
        assert(ents_lookup(cents, dot()) == Some(nid));
        assert(ents_lookup(cents.drop_first(), dotdot()) == Some(pid));
        assert(ents_lookup(cents, dotdot()) == Some(pid));
        assert(wf_dir(v2, nid));
    }
    // the parent stays well shaped
    assert(ents_names_unique(ents2)) by {
        assert forall|i: int, j: int|
            0 <= i < ents2.len() && 0 <= j < ents2.len() && i != j implies (
            #[trigger] ents2[i]).0 != (#[trigger] ents2[j]).0 by {
            if i < ents.len() && j < ents.len() {
                assert(ents2[i] == ents[i] && ents2[j] == ents[j]);
            } else if i < ents.len() {
                assert(ents2[i] == ents[i] && ents2[j] == (name, nid));
            } else if j < ents.len() {
                assert(ents2[i] == (name, nid) && ents2[j] == ents[j]);
            }
        }
    }
    assert(wf_dir(v2, pid)) by {
        assert forall|k: int| 0 <= k < ents2.len() implies v2.nodes.contains_key(
            (#[trigger] ents2[k]).1,
        ) by {
            if k < ents.len() {
                assert(ents2[k] == ents[k]);
                assert(v.nodes.contains_key(ents[k].1));
            }
        }
    }
    // every other directory is untouched
    assert forall|id: u64|
        #[trigger] v2.nodes.contains_key(id) && is_dir_node(v2.nodes[id]) implies wf_dir(
        v2,
        id,
    ) by {
        if id != pid && id != nid {
            assert(v2.nodes[id] == v.nodes[id]);
            assert(wf_dir(v, id));
            let dents = node_ents(v.nodes[id]);
            assert forall|k: int| 0 <= k < dents.len() implies v2.nodes.contains_key(
                (#[trigger] dents[k]).1,
            ) by {
                assert(v.nodes.contains_key(dents[k].1));
            }
        }
    }
    // plain references point strictly forward
    assert forall|d: u64, k: int, c: u64| #[trigger] refs(v2, d, k, c) implies c > d by {
        if d == nid {
            assert(is_dot_name(node_ents(v2.nodes[nid])[k].0));
        } else if d == pid {
            if k < ents.len() {
                assert(refs(v, pid, k, c));
            } else {
                assert(c == nid);
            }
        } else {
            assert(refs(v, d, k, c));
        }
    }
    // no two plain references share a target
    assert forall|d1: u64, k1: int, d2: u64, k2: int, c: u64|
        #[trigger] refs(v2, d1, k1, c) && #[trigger] refs(v2, d2, k2, c) implies d1 == d2 && k1
        == k2 by {
        if refs(v2, d1, k1, c) && refs(v2, d2, k2, c) {
            if c == nid {
                assert forall|d: u64, k: int| #[trigger] refs(v2, d, k, nid) implies d == pid && k
                    == ents.len() by {
                    if d == nid {
                        assert(is_dot_name(node_ents(v2.nodes[nid])[k].0));
                    } else if d == pid && k < ents.len() {
                        assert(refs(v, pid, k, nid));
                        assert(wf_dir(v, pid));
                        assert(v.nodes.contains_key(nid));
                    } else if d != pid {
                        assert(refs(v, d, k, nid));
                        assert(wf_dir(v, d));
                        assert(v.nodes.contains_key(nid));
                    }
                }
            } else {
                assert forall|d: u64, k: int| #[trigger] refs(v2, d, k, c) && c != nid implies refs(
                    v,
                    d,
                    k,
                    c,
                ) by {
                    if d == nid {
                        assert(is_dot_name(node_ents(v2.nodes[nid])[k].0));
                    } else if d == pid {
                        if k == ents.len() {
                            assert(node_ents(v2.nodes[pid])[k].1 == nid);
                        }
                    }
                }
            }
        }
    }
    // every non-root directory's `..` names the directory holding it
    assert forall|y: u64|
        #[trigger] v2.nodes.contains_key(y) && is_dir_node(v2.nodes[y]) && y != ROOT_UID implies ({
        let p = ents_lookup(node_ents(v2.nodes[y]), dotdot());
        p is Some && exists|k: int| refs(v2, p->Some_0, k, y)
    }) by {
        if y == nid {
            if tag != NodeTag::File {
                assert(ents_lookup(node_ents(v2.nodes[nid]), dotdot()) == Some(pid));
                assert(refs(v2, pid, ents.len() as int, nid));
                assert(refs(
                    v2,
                    ents_lookup(node_ents(v2.nodes[y]), dotdot())->Some_0,
                    ents.len() as int,
                    y,
                ));
            }
        } else if y == pid {
            assert(ents_lookup(ents2, dotdot()) == ents_lookup(ents, dotdot()));
            assert(v.nodes.contains_key(pid) && is_dir_node(v.nodes[pid]) && pid != ROOT_UID);
            let p = ents_lookup(ents, dotdot());
            assert(p is Some && exists|k: int| refs(v, p->Some_0, k, pid));
            let k = choose|k: int| refs(v, p->Some_0, k, pid);
            assert(refs(v, p->Some_0, k, pid));
            assert(p->Some_0 < pid);
            assert(v.nodes.contains_key(p->Some_0));
            assert(p->Some_0 != nid);
            assert(v2.nodes[p->Some_0] == v.nodes[p->Some_0]);
            assert(refs(v2, p->Some_0, k, pid));
            assert(refs(v2, ents_lookup(node_ents(v2.nodes[y]), dotdot())->Some_0, k, y));
        } else {
            assert(v.nodes.contains_key(y));
            assert(v2.nodes[y] == v.nodes[y]);
            assert(is_dir_node(v.nodes[y]));
            let p = ents_lookup(node_ents(v.nodes[y]), dotdot());
            assert(p is Some && exists|k: int| refs(v, p->Some_0, k, y));
            let k = choose|k: int| refs(v, p->Some_0, k, y);
            assert(refs(v, p->Some_0, k, y));
            assert(v.nodes.contains_key(p->Some_0));
            assert(p->Some_0 != nid);
            if p->Some_0 == pid {
                assert(node_ents(v2.nodes[pid])[k] == ents[k]);
                assert(refs(v2, pid, k, y));
            } else {
                assert(v2.nodes[p->Some_0] == v.nodes[p->Some_0]);
                assert(refs(v2, p->Some_0, k, y));
            }
            assert(ents_lookup(node_ents(v2.nodes[y]), dotdot()) == p);
            assert(refs(v2, ents_lookup(node_ents(v2.nodes[y]), dotdot())->Some_0, k, y));
        }
    }
    // root stays a live directory with `..` bound to itself
    if pid == ROOT_UID {
        assert(ents_lookup(ents2, dotdot()) == Some(ROOT_UID));
    } else {
        assert(v2.nodes[ROOT_UID] == v.nodes[ROOT_UID]);
    }
}

impl Fs {
    /// Creates a fresh node of the given kind at `path`.
    fn create(&mut self, uid: UserId, path: &str, tag: NodeTag) -> (r: Result<(), SysError>)
        requires
            old(self).inv(),
        ensures
            final(self).inv(),
            match spec_create(old(self)@, uid.0, path_segments(path@), tag) {
                Ok(v2) => r is Ok && final(self)@ == v2,
                Err(e) => r == Err::<(), SysError>(e) && *final(self) == *old(self),
            },
    {
        let ghost views = path_segments(path@);
        let segs = split_path(path);
        let nsegs = segs.len();
        let psegs_n = if nsegs == 0 {
            0
        } else {
            nsegs - 1
        };
        proof {
            if nsegs == 0 {
                assert(seg_views(segs@).take(0) =~= views);
            } else {
                assert(seg_views(segs@).take(psegs_n as int) =~= views.drop_last());
            }
        }
        let pid = match self.resolve_n(uid, &segs, psegs_n) {
            Ok(p) => p,
            Err(e) => {
                return Err(e);
            }
        };
        {
            let pnode = self.get(pid);
            match write_check(pnode, uid) {
                Err(e) => {
                    return Err(e);
                }
                Ok(()) => {}
            }
        }
        if nsegs == 0 {
            return Err(SysError::NotFound);
        }
        let name = &segs[nsegs - 1];
        proof {
            assert(name@ == views.last());
        }
        if is_dotdot(name.as_str()) {
            return Err(SysError::NotFound);
        }
        {
            let pnode = self.get(pid);
            let pdir = match pnode.as_dir() {
                Ok(d) => d,
                Err(e) => {
                    return Err(e);
                }
            };
            if pdir.contains(name.as_str()) {
                return Err(SysError::AlreadyExists);
            }
        }
        let nid = self.node_counter.0;
        proof {
            assert(self@.nodes.contains_key(pid));
            assert(pid < nid);
        }
        let child = Node::new_with_tag(NodeId(nid), NodeId(pid), tag);
        let pnode = self.take_node(pid);
        let Node { id: p_id, kind: p_kind, perms: p_perms } = pnode;
        let mut pdir = match p_kind {
            NodeKind::Dir(d) => d,
            NodeKind::File(_) => vstd::pervasive::unreached(),
        };
        pdir.add(name.as_str(), NodeId(nid));
        self.put_node(pid, Node { id: p_id, kind: NodeKind::Dir(pdir), perms: p_perms });
        self.push_node(child);
        proof {
            let v1 = old(self)@;
            assert(nid < u64::MAX);
            assert(self@.nodes =~= create_result(v1, pid, name@, tag).nodes);
            assert(self@ =~= create_result(v1, pid, name@, tag));
            lemma_wf_create(v1, pid, name@, tag);
        }
        Ok(())
    }

    /// Creates a new (empty) file at `path`; fails if the name is taken.
    pub fn new_file(&mut self, uid: UserId, path: &str) -> (r: Result<(), SysError>)
        requires
            old(self).inv(),
        ensures
            final(self).inv(),
            match spec_create(old(self)@, uid.0, path_segments(path@), NodeTag::File) {
                Ok(v2) => r is Ok && final(self)@ == v2,
                Err(e) => r == Err::<(), SysError>(e) && *final(self) == *old(self),
            },
    {
        self.create(uid, path, NodeTag::File)
    }

    /// Creates a new (empty) directory at `path`; fails if the name is taken.
    pub fn new_dir(&mut self, uid: UserId, path: &str) -> (r: Result<(), SysError>)
        requires
            old(self).inv(),
        ensures
            final(self).inv(),
            match spec_create(old(self)@, uid.0, path_segments(path@), NodeTag::Dir) {
                Ok(v2) => r is Ok && final(self)@ == v2,
                Err(e) => r == Err::<(), SysError>(e) && *final(self) == *old(self),
            },
    {
        self.create(uid, path, NodeTag::Dir)
    }
}


/// A well-shaped directory holds at least its two dot bindings.
proof fn lemma_wf_dir_min_len(v: FsV, id: u64)
    requires
        wf_graph(v),
        v.nodes.contains_key(id),
        is_dir_node(v.nodes[id]),
    ensures
        node_ents(v.nodes[id]).len() >= 2,
{
    let ents = node_ents(v.nodes[id]);
    assert(wf_dir(v, id));
    lemma_lookup_some(ents, dot());
    lemma_lookup_some(ents, dotdot());
    let k1 = choose|k: int|
        0 <= k < ents.len() && (#[trigger] ents[k]).0 == dot() && ents[k].1 == ents_lookup(
            ents,
            dot(),
        )->Some_0;
    let k2 = choose|k: int|
        0 <= k < ents.len() && (#[trigger] ents[k]).0 == dotdot() && ents[k].1 == ents_lookup(
            ents,
            dotdot(),
        )->Some_0;
    assert(dot().len() == 1 && dotdot().len() == 2);
    assert(k1 != k2);
}

/// A directory holding nothing besides its dot bindings has only dot-named
/// entries, so nothing references another node from it.
proof fn lemma_small_dir_all_dots(v: FsV, tid: u64)
    requires
        wf_graph(v),
        v.nodes.contains_key(tid),
        is_dir_node(v.nodes[tid]),
        node_ents(v.nodes[tid]).len() <= 2,
    ensures
        forall|k: int|
            0 <= k < node_ents(v.nodes[tid]).len() ==> is_dot_name(
                (#[trigger] node_ents(v.nodes[tid])[k]).0,
            ),
{
    let ents = node_ents(v.nodes[tid]);
    assert(wf_dir(v, tid));
    lemma_lookup_some(ents, dot());
    lemma_lookup_some(ents, dotdot());
    let k1 = choose|k: int|
        0 <= k < ents.len() && (#[trigger] ents[k]).0 == dot() && ents[k].1 == ents_lookup(
            ents,
            dot(),
        )->Some_0;
    let k2 = choose|k: int|
        0 <= k < ents.len() && (#[trigger] ents[k]).0 == dotdot() && ents[k].1 == ents_lookup(
            ents,
            dotdot(),
        )->Some_0;
    assert(dot().len() == 1 && dotdot().len() == 2);
    assert(k1 != k2);
    assert forall|k: int| 0 <= k < ents.len() implies is_dot_name((#[trigger] ents[k]).0) by {
        assert(k == k1 || k == k2);
    }
}

/// The remove operation: reject a path without a usable final name, resolve
/// the parent (read-checked), read-check the target, reject a non-empty
/// directory, write-check the parent, then unbind the name and free the
/// target. Since a non-empty directory is already rejected, freeing the
/// target never has to descend.
pub open spec fn spec_rm(v: FsV, uid: u64, segs: Seq<Seq<char>>) -> Result<FsV, SysError> {
    if segs.len() == 0 || segs.last() == dotdot() {
        Err(SysError::NotFound)
    } else {
        match spec_resolve(v, uid, segs.drop_last()) {
            Err(e) => Err(e),
            Ok(pid) => if !is_dir_node(v.nodes[pid]) {
                Err(SysError::TypeMismatch)
            } else {
                match ents_lookup(node_ents(v.nodes[pid]), segs.last()) {
                    None => Err(SysError::NotFound),
                    Some(tid) => if !spec_allows(v.nodes[tid].acl, uid, seq![Op::Read]) {
                        Err(SysError::PermissionDenied)
                    } else if is_dir_node(v.nodes[tid]) && node_ents(v.nodes[tid]).len() > 2 {
                        Err(SysError::Conflict)
                    } else if !spec_allows(v.nodes[pid].acl, uid, seq![Op::Write]) {
                        Err(SysError::PermissionDenied)
                    } else {
                        Ok(rm_result(v, pid, segs.last(), tid))
                    },
                }
            },
        }
    }
}

/// The graph after unbinding `name` from `pid` and freeing `tid`.
pub open spec fn rm_result(v: FsV, pid: u64, name: Seq<char>, tid: u64) -> FsV {
    let parent2 = NodeV {
        kind: NodeKindV::Dir { ents: ents_remove(node_ents(v.nodes[pid]), name) },
        acl: v.nodes[pid].acl,
    };
    FsV { nodes: v.nodes.insert(pid, parent2).remove(tid), next_id: v.next_id }
}

/// Unbinding a plain name and freeing the file or now-empty directory it
/// named preserves the graph invariant.
#[verifier::rlimit(100)]
proof fn lemma_wf_remove(v: FsV, pid: u64, name: Seq<char>, tid: u64)
    requires
        wf_graph(v),
        v.nodes.contains_key(pid),
        is_dir_node(v.nodes[pid]),
        !is_dot_name(name),
        ents_lookup(node_ents(v.nodes[pid]), name) == Some(tid),
        is_dir_node(v.nodes[tid]) ==> node_ents(v.nodes[tid]).len() <= 2,
    ensures
        wf_graph(rm_result(v, pid, name, tid)),
{
    let v2 = rm_result(v, pid, name, tid);
    let ents = node_ents(v.nodes[pid]);
    let ents2 = node_ents(v2.nodes[pid]);
    assert(wf_dir(v, pid));
    lemma_lookup_some(ents, name);
    let k = choose|k: int|
        0 <= k < ents.len() && (#[trigger] ents[k]).0 == name && ents[k].1 == ents_lookup(
            ents,
            name,
        )->Some_0;
    assert(ents[k].1 == tid);
    assert(refs(v, pid, k, tid));
    assert(tid > pid);
    assert(tid != ROOT_UID);
    assert(v.nodes.contains_key(tid));
    assert forall|j: int| 0 <= j < k implies (#[trigger] ents[j]).0 != name by {
        assert(ents_names_unique(ents));
    }
    lemma_remove_at_first(ents, name, k);
    assert(ents2 =~= ents.remove(k));
    assert(ents2.len() == ents.len() - 1);
    assert forall|j: int| 0 <= j < ents2.len() implies (#[trigger] ents2[j]) == (if j < k {
        ents[j]
    } else {
        ents[j + 1]
    }) by {}
    lemma_lookup_ents_remove(ents, name, dot());
    lemma_lookup_ents_remove(ents, name, dotdot());
    if is_dir_node(v.nodes[tid]) {
        lemma_small_dir_all_dots(v, tid);
    }
    // no entry anywhere, dot or plain, still points at the freed node
    assert forall|d: u64, j: int|
        v2.nodes.contains_key(d) && is_dir_node(v2.nodes[d]) && 0 <= j < node_ents(
            v2.nodes[d],
        ).len() implies (#[trigger] node_ents(v2.nodes[d])[j]).1 != tid && v2.nodes.contains_key(
        node_ents(v2.nodes[d])[j].1,
    ) by {
        let dents = node_ents(v2.nodes[d]);
        let e = dents[j];
        let oj: int = if d == pid && j >= k {
            j + 1
        } else {
            j
        };
        assert(v.nodes.contains_key(d));
        assert(wf_dir(v, d));
        let odents = node_ents(v.nodes[d]);
        assert(e == odents[oj]);
        assert(v.nodes.contains_key(e.1));
        if !is_dot_name(e.0) {
            assert(refs(v, d, oj, e.1));
            if e.1 == tid {
                assert(refs(v, pid, k, tid));
                assert(d == pid && oj == k);
                assert(false);
            }
        } else {
            if e.0 == dot() {
                assert(ents_names_unique(odents));
                lemma_lookup_at(odents, dot(), oj);
                assert(e.1 == d);
                assert(d != tid);
            } else {
                assert(ents_names_unique(odents));
                lemma_lookup_at(odents, dotdot(), oj);
                assert(ents_lookup(odents, dotdot()) == Some(e.1));
                if e.1 == tid {
                    if d == ROOT_UID {
                        assert(false);
                    } else {
                        let kk = choose|kk: int| refs(v, tid, kk, d);
                        assert(is_dot_name(node_ents(v.nodes[tid])[kk].0));
                        assert(false);
                    }
                }
            }
        }
    }
    // each directory stays well shaped
    assert forall|id: u64|
        #[trigger] v2.nodes.contains_key(id) && is_dir_node(v2.nodes[id]) implies wf_dir(
        v2,
        id,
    ) by {
        assert(v.nodes.contains_key(id));
        assert(wf_dir(v, id));
        if id == pid {
            assert(ents_names_unique(ents2)) by {
                assert forall|a: int, b: int|
                    0 <= a < ents2.len() && 0 <= b < ents2.len() && a != b implies (
                #[trigger] ents2[a]).0 != (#[trigger] ents2[b]).0 by {
                    let oa: int = if a < k {
                        a
                    } else {
                        a + 1
                    };
                    let ob: int = if b < k {
                        b
                    } else {
                        b + 1
                    };
                    assert(ents2[a] == ents[oa] && ents2[b] == ents[ob]);
                    assert(ents_names_unique(ents));
                }
            }
        }
    }
    // plain references still point strictly forward and stay unshared
    assert forall|d: u64, j: int, c: u64| #[trigger] refs(v2, d, j, c) implies refs(
        v,
        d,
        (if d == pid && j >= k {
            j + 1
        } else {
            j
        }),
        c,
    ) by {
        assert(v.nodes.contains_key(d));
    }
    assert forall|d: u64, j: int, c: u64| #[trigger] refs(v2, d, j, c) implies c > d by {
        assert(refs(
            v,
            d,
            (if d == pid && j >= k {
                j + 1
            } else {
                j
            }),
            c,
        ));
    }
    assert forall|d1: u64, j1: int, d2: u64, j2: int, c: u64|
        #[trigger] refs(v2, d1, j1, c) && #[trigger] refs(v2, d2, j2, c) implies d1 == d2 && j1
        == j2 by {
        let o1: int = if d1 == pid && j1 >= k {
            j1 + 1
        } else {
            j1
        };
        let o2: int = if d2 == pid && j2 >= k {
            j2 + 1
        } else {
            j2
        };
        if refs(v2, d1, j1, c) && refs(v2, d2, j2, c) {
            assert(refs(v, d1, o1, c));
            assert(refs(v, d2, o2, c));
            assert(d1 == d2 && o1 == o2);
        }
    }
    // every surviving non-root directory's `..` still names its holder
    assert forall|y: u64|
        #[trigger] v2.nodes.contains_key(y) && is_dir_node(v2.nodes[y]) && y != ROOT_UID implies ({
        let p = ents_lookup(node_ents(v2.nodes[y]), dotdot());
        p is Some && exists|j: int| refs(v2, p->Some_0, j, y)
    }) by {
        assert(v.nodes.contains_key(y) && is_dir_node(v.nodes[y]));
        let op = ents_lookup(node_ents(v.nodes[y]), dotdot());
        let oj = choose|j: int| refs(v, op->Some_0, j, y);
        assert(refs(v, op->Some_0, oj, y));
        let pp = op->Some_0;
        assert(pp != tid) by {
            if pp == tid {
                assert(is_dot_name(node_ents(v.nodes[tid])[oj].0));
            }
        }
        if y == pid {
            assert(ents_lookup(ents2, dotdot()) == op);
        } else {
            assert(v2.nodes[y] == v.nodes[y]);
        }
        assert(ents_lookup(node_ents(v2.nodes[y]), dotdot()) == op);
        if pp == pid {
            assert(node_ents(v.nodes[pid])[oj].1 == y);
            assert(y != tid);
            assert(oj != k);
            let nj: int = if oj < k {
                oj
            } else {
                oj - 1
            };
            assert(ents2[nj] == ents[oj]);
            assert(refs(v2, pid, nj, y));
            assert(refs(v2, ents_lookup(node_ents(v2.nodes[y]), dotdot())->Some_0, nj, y));
        } else {
            assert(v2.nodes[pp] == v.nodes[pp]);
            assert(refs(v2, pp, oj, y));
            assert(refs(v2, ents_lookup(node_ents(v2.nodes[y]), dotdot())->Some_0, oj, y));
        }
    }
    if pid == ROOT_UID {
        assert(ents_lookup(ents2, dotdot()) == Some(ROOT_UID));
    } else {
        assert(v2.nodes[ROOT_UID] == v.nodes[ROOT_UID]);
    }
}

/// Names are bound at most once, so a binding's index determines the lookup.
proof fn lemma_lookup_at(ents: DirEntsV, name: Seq<char>, k: int)
    requires
        ents_names_unique(ents),
        0 <= k < ents.len(),
        ents[k].0 == name,
    ensures
        ents_lookup(ents, name) == Some(ents[k].1),
    decreases k,
{
    if k == 0 {
    } else {
        assert(ents[0].0 != name);
        assert(ents.drop_first()[k - 1] == ents[k]);
        assert forall|a: int, b: int|
            0 <= a < ents.drop_first().len() && 0 <= b < ents.drop_first().len() && a != b implies (
        #[trigger] ents.drop_first()[a]).0 != (#[trigger] ents.drop_first()[b]).0 by {
            assert(ents.drop_first()[a] == ents[a + 1]);
            assert(ents.drop_first()[b] == ents[b + 1]);
        }
        lemma_lookup_at(ents.drop_first(), name, k - 1);
    }
}

impl Fs {
    /// Removes the node at `path`. A non-empty directory is refused, so the
    /// freed target is always a single file or empty directory.
    pub fn rm(&mut self, uid: UserId, path: &str) -> (r: Result<(), SysError>)
        requires
            old(self).inv(),
        ensures
            final(self).inv(),
            match spec_rm(old(self)@, uid.0, path_segments(path@)) {
                Ok(v2) => r is Ok && final(self)@ == v2,
                Err(e) => r == Err::<(), SysError>(e) && *final(self) == *old(self),
            },
    {
        let ghost views = path_segments(path@);
        let segs = split_path(path);
        let nsegs = segs.len();
        if nsegs == 0 {
            return Err(SysError::NotFound);
        }
        let name = &segs[nsegs - 1];
        proof {
            assert(name@ == views.last());
        }
        if is_dotdot(name.as_str()) {
            return Err(SysError::NotFound);
        }
        proof {
            assert(seg_views(segs@).take(nsegs - 1 as int) =~= views.drop_last());
        }
        let pid = match self.resolve_n(uid, &segs, nsegs - 1) {
            Ok(p) => p,
            Err(e) => {
                return Err(e);
            }
        };
        let tid = {
            let pnode = self.get(pid);
            let pdir = match pnode.as_dir() {
                Ok(d) => d,
                Err(e) => {
                    return Err(e);
                }
            };
            match pdir.lookup(name.as_str()) {
                Some(t) => t,
                None => {
                    return Err(SysError::NotFound);
                }
            }
        };
        proof {
            assert(wf_dir(self@, pid));
            lemma_lookup_some(node_ents(self@.nodes[pid]), name@);
            assert(self@.nodes.contains_key(tid.0));
            let ents = node_ents(self@.nodes[pid]);
            let k = choose|k: int|
                0 <= k < ents.len() && (#[trigger] ents[k]).0 == name@ && ents[k].1 == ents_lookup(
                    ents,
                    name@,
                )->Some_0;
            assert(dot().len() == 1 && dotdot().len() == 2);
            assert(!is_dot_name(name@)) by {
                lemma_segments_kept(path@);
                assert(keep_piece(views[views.len() - 1]));
            }
            assert(refs(self@, pid, k, tid.0));
            assert(tid.0 > pid);
        }
        {
            let tnode = self.get(tid.0);
            match read_check(tnode, uid) {
                Err(e) => {
                    return Err(e);
                }
                Ok(()) => {}
            }
            match &tnode.kind {
                NodeKind::Dir(d) => {
                    proof {
                        lemma_wf_dir_min_len(self@, tid.0);
                    }
                    if !d.is_empty() {
                        return Err(SysError::Conflict);
                    }
                }
                NodeKind::File(_) => {}
            }
        }
        {
            let pnode = self.get(pid);
            match write_check(pnode, uid) {
                Err(e) => {
                    return Err(e);
                }
                Ok(()) => {}
            }
        }
        let pnode = self.take_node(pid);
        let Node { id: p_id, kind: p_kind, perms: p_perms } = pnode;
        let mut pdir = match p_kind {
            NodeKind::Dir(d) => d,
            NodeKind::File(_) => vstd::pervasive::unreached(),
        };
        let removed = pdir.rm(name.as_str());
        proof {
            assert(removed is Some);
        }
        self.put_node(pid, Node { id: p_id, kind: NodeKind::Dir(pdir), perms: p_perms });
        let _freed = self.take_node(tid.0);
        proof {
            let v1 = old(self)@;
            assert(self@.nodes =~= rm_result(v1, pid, name@, tid.0).nodes);
            assert(self@ =~= rm_result(v1, pid, name@, tid.0));
            lemma_wf_remove(v1, pid, name@, tid.0);
        }
        Ok(())
    }
}


/// The set-permissions operation: resolve (read-checked), demand `write`
/// and `control` on the target, then overwrite the grantee's entry in the
/// target's access table (a no-op when the grantee is the administrator).
pub open spec fn spec_set_perms(
    v: FsV,
    uid: u64,
    target: u64,
    segs: Seq<Seq<char>>,
    perms: Perms,
) -> Result<FsV, SysError> {
    match spec_resolve(v, uid, segs) {
        Err(e) => Err(e),
        Ok(id) => if !spec_allows(v.nodes[id].acl, uid, seq![Op::Write]) {
            Err(SysError::PermissionDenied)
        } else if !spec_allows(v.nodes[id].acl, uid, seq![Op::Control]) {
            Err(SysError::PermissionDenied)
        } else {
            Ok(
                FsV {
                    nodes: v.nodes.insert(
                        id,
                        NodeV {
                            kind: v.nodes[id].kind,
                            acl: if target == ADMIN_UID {
                                v.nodes[id].acl
                            } else {
                                v.nodes[id].acl.insert(target, perms)
                            },
                        },
                    ),
                    next_id: v.next_id,
                },
            )
        },
    }
}

impl Fs {
    /// Overwrites `for_user`'s grant on the node at `path`.
    pub fn set_perms(&mut self, uid: UserId, for_user: UserId, path: &str, perms: Perms) -> (r:
        Result<(), SysError>)
        requires
            old(self).inv(),
        ensures
            final(self).inv(),
            match spec_set_perms(old(self)@, uid.0, for_user.0, path_segments(path@), perms) {
                Ok(v2) => r is Ok && final(self)@ == v2,
                Err(e) => r == Err::<(), SysError>(e) && *final(self) == *old(self),
            },
    {
        let segs = split_path(path);
        let n = segs.len();
        proof {
            assert(seg_views(segs@).take(n as int) =~= seg_views(segs@));
        }
        let id = match self.resolve_n(uid, &segs, n) {
            Ok(id) => id,
            Err(e) => {
                return Err(e);
            }
        };
        {
            let node = self.get(id);
            match write_check(node, uid) {
                Err(e) => {
                    return Err(e);
                }
                Ok(()) => {}
            }
            match control_check(node, uid) {
                Err(e) => {
                    return Err(e);
                }
                Ok(()) => {}
            }
        }
        let mut node = self.take_node(id);
        node.set_perm(for_user, perms);
        self.put_node(id, node);
        proof {
            let v1 = old(self)@;
            let v2 = self@;
            assert(v2.nodes =~= spec_set_perms(
                v1,
                uid.0,
                for_user.0,
                path_segments(path@),
                perms,
            )->Ok_0.nodes);
            assert(v2 =~= spec_set_perms(v1, uid.0, for_user.0, path_segments(path@), perms)->Ok_0);
            assert(same_structure(v1, v2));
            lemma_wf_same_structure(v1, v2);
        }
        Ok(())
    }
}

/// Resolving a concatenation resolves the first part, then goes on from
/// where it landed.
pub proof fn lemma_resolve_from_append(
    v: FsV,
    uid: u64,
    cur: u64,
    s1: Seq<Seq<char>>,
    s2: Seq<Seq<char>>,
)
    ensures
        spec_resolve_from(v, uid, cur, s1 + s2) == (match spec_resolve_from(v, uid, cur, s1) {
            Ok(m) => spec_resolve_from(v, uid, m, s2),
            Err(e) => Err::<u64, SysError>(e),
        }),
    decreases s1.len(),
{
    if s1.len() == 0 {
        assert(s1 + s2 =~= s2);
    } else {
        assert((s1 + s2)[0] == s1[0]);
        assert((s1 + s2).len() > 0);
        match v.nodes[cur].kind {
            NodeKindV::File { .. } => {}
            NodeKindV::Dir { ents } => {
                match ents_lookup(ents, s1[0]) {
                    None => {}
                    Some(child) => {
                        if spec_allows(v.nodes[child].acl, uid, seq![Op::Read]) {
                            assert((s1 + s2).drop_first() =~= s1.drop_first() + s2);
                            lemma_resolve_from_append(v, uid, child, s1.drop_first(), s2);
                        }
                    }
                }
            }
        }
    }
}

/// A resolution that succeeded is unchanged by binding a fresh name: the
/// new node is unreachable under old names, and the fresh name was bound
/// nowhere on the successful walk.
proof fn lemma_resolve_from_after_create(
    v: FsV,
    pid: u64,
    name: Seq<char>,
    tag: NodeTag,
    uid: u64,
    cur: u64,
    segs: Seq<Seq<char>>,
)
    requires
        wf_graph(v),
        v.nodes.contains_key(pid),
        is_dir_node(v.nodes[pid]),
        !ents_contains(node_ents(v.nodes[pid]), name),
        v.next_id < u64::MAX,
        v.nodes.contains_key(cur),
        spec_resolve_from(v, uid, cur, segs) is Ok,
    ensures
        spec_resolve_from(create_result(v, pid, name, tag), uid, cur, segs) == spec_resolve_from(
            v,
            uid,
            cur,
            segs,
        ),
    decreases segs.len(),
{
    let v2 = create_result(v, pid, name, tag);
    let nid = v.next_id;
    if segs.len() > 0 {
        assert(cur != nid);
        assert(is_dir_node(v.nodes[cur]));
        let ents = node_ents(v.nodes[cur]);
        assert(is_dir_node(v2.nodes[cur]));
        if cur == pid {
            assert(node_ents(v2.nodes[cur]) == ents.push((name, nid)));
            assert(ents_lookup(ents, segs[0]) is Some);
            assert(segs[0] != name);
            lemma_lookup_push(ents, segs[0], (name, nid));
            assert(ents_lookup(node_ents(v2.nodes[cur]), segs[0]) == ents_lookup(ents, segs[0]));
        } else {
            assert(v2.nodes[cur] == v.nodes[cur]);
        }
        let child = ents_lookup(ents, segs[0])->Some_0;
        assert(wf_dir(v, cur));
        lemma_lookup_some(ents, segs[0]);
        assert(v.nodes.contains_key(child));
        assert(child != nid);
        assert(v2.nodes[child].acl == v.nodes[child].acl);
        if spec_allows(v.nodes[child].acl, uid, seq![Op::Read]) {
            lemma_resolve_from_after_create(v, pid, name, tag, uid, child, segs.drop_first());
        }
    }
}

/// Law: for every path and every text, creating the file as the
/// administrator, writing the text, and reading it back yields exactly the
/// written text.
#[verifier::rlimit(100)]
pub proof fn lemma_create_write_read(v: FsV, segs: Seq<Seq<char>>, t: Seq<char>)
    requires
        wf_graph(v),
        v.next_id < u64::MAX,
        spec_create(v, ADMIN_UID, segs, NodeTag::File) is Ok,
    ensures
        ({
            let v1 = spec_create(v, ADMIN_UID, segs, NodeTag::File)->Ok_0;
            &&& spec_write(v1, ADMIN_UID, segs, t) is Ok
            &&& spec_read(spec_write(v1, ADMIN_UID, segs, t)->Ok_0, ADMIN_UID, segs) == Ok::<
                Seq<char>,
                SysError,
            >(t)
        }),
{
    let psegs = segs.drop_last();
    let pid = spec_resolve(v, ADMIN_UID, psegs)->Ok_0;
    let name = segs.last();
    let nid = v.next_id;
    let v1 = create_result(v, pid, name, NodeTag::File);
    assert(spec_resolve(v, ADMIN_UID, psegs) == Ok::<u64, SysError>(pid));
    assert(v.nodes.contains_key(pid)) by {
        lemma_resolve_from_ok_live(v, ADMIN_UID, ROOT_UID, psegs);
    }
    lemma_wf_create(v, pid, name, NodeTag::File);
    assert(wf_graph(v1));
    lemma_resolve_from_after_create(v, pid, name, NodeTag::File, ADMIN_UID, ROOT_UID, psegs);
    assert(spec_resolve_from(v1, ADMIN_UID, ROOT_UID, psegs) == Ok::<u64, SysError>(pid));
    lemma_resolve_from_append(v1, ADMIN_UID, ROOT_UID, psegs, seq![name]);
    assert(psegs + seq![name] =~= segs);
    let ents2 = node_ents(v1.nodes[pid]);
    lemma_lookup_push(node_ents(v.nodes[pid]), name, (name, nid));
    assert(ents_lookup(ents2, name) == Some(nid));
    assert(seq![name].drop_first() =~= Seq::<Seq<char>>::empty());
    assert(seq![name].len() == 1);
    assert(seq![name][0] == name);
    assert(is_dir_node(v1.nodes[pid]));
    assert(spec_resolve_from(v1, ADMIN_UID, nid, seq![name].drop_first()) == Ok::<u64, SysError>(
        nid,
    ));
    assert(spec_resolve_from(v1, ADMIN_UID, pid, seq![name]) == Ok::<u64, SysError>(nid));
    assert(spec_resolve(v1, ADMIN_UID, segs) == Ok::<u64, SysError>(nid));
    assert(!is_dir_node(v1.nodes[nid]));
    let v2 = spec_write(v1, ADMIN_UID, segs, t)->Ok_0;
    assert(v2.nodes == v1.nodes.insert(
        nid,
        NodeV { kind: NodeKindV::File { content: t }, acl: v1.nodes[nid].acl },
    ));
    assert(same_shape(v1, v2));
    lemma_resolve_same_shape(v1, v2, ADMIN_UID, segs);
    assert(spec_resolve(v2, ADMIN_UID, segs) == Ok::<u64, SysError>(nid));
    assert(node_content(v2.nodes[nid]) == t);
}

/// A successful resolution lands on a live node.
proof fn lemma_resolve_from_ok_live(v: FsV, uid: u64, cur: u64, segs: Seq<Seq<char>>)
    requires
        wf_graph(v),
        v.nodes.contains_key(cur),
        spec_resolve_from(v, uid, cur, segs) is Ok,
    ensures
        v.nodes.contains_key(spec_resolve_from(v, uid, cur, segs)->Ok_0),
    decreases segs.len(),
{
    if segs.len() > 0 {
        let ents = node_ents(v.nodes[cur]);
        assert(wf_dir(v, cur));
        lemma_lookup_some(ents, segs[0]);
        let child = ents_lookup(ents, segs[0])->Some_0;
        assert(v.nodes.contains_key(child));
        lemma_resolve_from_ok_live(v, uid, child, segs.drop_first());
    }
}

/// Law: removing a directory that still has children always fails with
/// `Conflict`; once the directory is empty and the caller holds `write` on
/// the parent, the same remove succeeds.
pub proof fn lemma_rm_conflict_then_success(v: FsV, uid: u64, segs: Seq<Seq<char>>)
    requires
        wf_graph(v),
        segs.len() > 0,
        segs.last() != dotdot(),
        spec_resolve(v, uid, segs.drop_last()) is Ok,
        ({
            let pid = spec_resolve(v, uid, segs.drop_last())->Ok_0;
            &&& is_dir_node(v.nodes[pid])
            &&& ents_lookup(node_ents(v.nodes[pid]), segs.last()) is Some
            &&& ({
                let tid = ents_lookup(node_ents(v.nodes[pid]), segs.last())->Some_0;
                spec_allows(v.nodes[tid].acl, uid, seq![Op::Read]) && is_dir_node(v.nodes[tid])
            })
        }),
    ensures
        ({
            let pid = spec_resolve(v, uid, segs.drop_last())->Ok_0;
            let tid = ents_lookup(node_ents(v.nodes[pid]), segs.last())->Some_0;
            &&& node_ents(v.nodes[tid]).len() > 2 ==> spec_rm(v, uid, segs) == Err::<
                FsV,
                SysError,
            >(SysError::Conflict)
            &&& (node_ents(v.nodes[tid]).len() <= 2 && spec_allows(
                v.nodes[pid].acl,
                uid,
                seq![Op::Write],
            )) ==> spec_rm(v, uid, segs) == Ok::<FsV, SysError>(
                rm_result(v, pid, segs.last(), tid),
            )
        }),
{
}

} // verus!
