//! The node table and the filesystem operations on it.

use crate::k8s_resource::{
    definition_suffix, kubectl_command, CommandOutput, FileAttr, FileType, Inode, ResourceFile,
    ResourceType,
};
use std::collections::BTreeMap;
use vstd::prelude::*;
use vstd::string::*;

verus! {

/// Identifier of the root of the tree, which is its own parent.
pub const ROOT_INODE: Inode = 0;

/// Identifier of the context directory, under which the namespaces live.
pub const CONTEXT_INODE: Inode = 1;

/// The largest identifier the tree hands out. Cursors of a directory listing
/// are signed, and every child count must fit in one.
pub const MAX_INODE: Inode = 0x7fff_ffff_ffff_ffff;

/// For how many seconds the kernel may keep an answer before asking again.
pub const TTL_SECS: u64 = 1;

/// A node together with the identifiers of the nodes listed in it, in order.
pub type File = (ResourceFile, Vec<Inode>);

/// The ways an operation can fail.
#[derive(Debug, Copy, Clone, PartialEq, Eq, Structural)]
pub enum FsError {
    /// No node has the identifier or the name that was asked for.
    NotFound,
    /// The tree may not be changed at this place, or the cluster refused.
    PermissionDenied,
    /// The caller's buffer could not take every entry of a listing.
    NoBuffers,
}

/// The answer to a question about one node: its attributes, and for how
/// many seconds they may be taken as valid.
#[derive(Debug, Copy, Clone, PartialEq, Eq, Structural)]
pub struct AttrReply {
    pub ttl: u64,
    pub attr: FileAttr,
}

/// The answer that names a directory entry: the attributes of its node, for
/// how many seconds the entry and the attributes may be taken as valid, and
/// the generation of the identifier, which is always zero because no
/// identifier is handed out twice.
#[derive(Debug, Copy, Clone, PartialEq, Eq, Structural)]
pub struct EntryReply {
    pub ttl: u64,
    pub attr: FileAttr,
    pub generation: u64,
}

/// One namespace as the cluster reports it, with the pods inside it.
#[derive(Debug, Clone)]
pub struct NamespaceListing {
    pub name: String,
    pub pods: Vec<String>,
}

/// One line of a directory listing.
#[derive(Debug, Clone)]
pub struct DirEntry {
    pub inode: Inode,
    /// The cursor that resumes the listing right after this entry.
    pub offset: i64,
    pub kind: FileType,
    pub name: String,
}

/// One line of a directory listing, as a value of the model.
pub ghost struct DirEntryView {
    pub inode: Inode,
    pub offset: i64,
    pub kind: FileType,
    pub name: Seq<char>,
}

impl View for DirEntry {
    type V = DirEntryView;

    open spec fn view(&self) -> DirEntryView {
        DirEntryView { inode: self.inode, offset: self.offset, kind: self.kind, name: self.name@ }
    }
}

/// Declares `fuser::ReplyDirectory`, the buffer in which the answer to a
/// directory listing is put together, as a type whose inside is not looked at
/// here.
#[verifier::external_type_specification]
#[verifier::external_body]
pub struct ExReplyDirectory(fuser::ReplyDirectory);

/// What a reply buffer holds: the entries that were added to it, in the
/// order in which they were added.
pub uninterp spec fn reply_entries(reply: fuser::ReplyDirectory) -> Seq<DirEntryView>;

/// The number of bytes that a reply buffer was made for, which stays the
/// same as long as the buffer lives.
pub uninterp spec fn reply_capacity(reply: fuser::ReplyDirectory) -> nat;

/// What `fuser::ReplyDirectory::add` answers for `entry` on a buffer that
/// was made for `capacity` bytes and holds `held`: whether the buffer is too
/// full to take this entry as well.
pub uninterp spec fn reply_full(
    held: Seq<DirEntryView>,
    capacity: nat,
    entry: DirEntryView,
) -> bool;

/// Whether the name of an entry is short enough to be handed to a buffer at
/// all: its length in bytes has to fit in 32 bits.
pub open spec fn name_fits(entry: DirEntryView) -> bool {
    vstd::utf8::encode_utf8(entry.name).len() as usize <= u32::MAX
}

/// Whether a buffer that was made for `capacity` bytes and holds `held`
/// takes `entry` as well.
pub open spec fn buffer_takes(held: Seq<DirEntryView>, capacity: nat, entry: DirEntryView) -> bool {
    name_fits(entry) && !reply_full(held, capacity, entry)
}

/// The position of the first of `entries`, from `from` on, that a buffer does
/// not take which was made for `capacity` bytes, holds `held`, and is handed
/// the entries one after the other; their number, if it takes them all.
/// Counted from the start, this is how many entries the buffer takes.
pub open spec fn taken_from(
    held: Seq<DirEntryView>,
    capacity: nat,
    entries: Seq<DirEntryView>,
    from: int,
) -> int
    decreases entries.len() - from,
{
    if from < 0 || from >= entries.len() {
        from
    } else if !buffer_takes(held, capacity, entries[from]) {
        from
    } else {
        taken_from(held.push(entries[from]), capacity, entries, from + 1)
    }
}

/// Calls `fuser::ReplyDirectory::add`, which appends the entry to the buffer
/// when it still fits, and otherwise leaves the buffer as it is and says
/// that it is full. Its answer depends on what the buffer holds, on the
/// size it was made for and on the entry, and the contract only names it.
/// A name of more bytes than `u32` counts is left out: `add` does not return
/// for it.
#[verifier::external_body]
fn reply_add(reply: &mut fuser::ReplyDirectory, entry: &DirEntry) -> (full: bool)
    requires
        name_fits(entry@),
    ensures
        full == reply_full(reply_entries(*old(reply)), reply_capacity(*old(reply)), entry@),
        full ==> reply_entries(*final(reply)) == reply_entries(*old(reply)),
        !full ==> reply_entries(*final(reply)) == reply_entries(*old(reply)).push(entry@),
        reply_capacity(*final(reply)) == reply_capacity(*old(reply)),
{
    let kind = match entry.kind {
        FileType::Directory => fuser::FileType::Directory,
        FileType::RegularFile => fuser::FileType::RegularFile,
    };
    reply.add(entry.inode, entry.offset, kind, entry.name.as_str())
}

/// The bytes that a read of `size` bytes at `offset` returns from `content`:
/// what lies between the offset and the end, cut to `size`, and nothing for
/// an offset that is not inside the content.
pub open spec fn read_window(content: Seq<u8>, offset: i64, size: u32) -> Seq<u8> {
    if offset < 0 || offset >= content.len() {
        Seq::empty()
    } else if offset + size >= content.len() {
        content.subrange(offset as int, content.len() as int)
    } else {
        content.subrange(offset as int, offset + size)
    }
}

/// How many identifiers the first `count` namespaces of a listing take: two
/// for each namespace and two for each of its pods, a directory and its
/// definition file each time.
pub open spec fn listed_nodes(listing: Seq<NamespaceListing>, count: int) -> int
    decreases count,
{
    if count <= 0 {
        0
    } else {
        listed_nodes(listing, count - 1) + 2 + 2 * listing[count - 1].pods@.len()
    }
}

/// Whether a listing gives every entry of a directory a name of its own: no
/// two namespaces have the same name, no two pods of a namespace have, and no
/// pod is named like the definition file of its namespace.
pub open spec fn distinct_names(listing: Seq<NamespaceListing>) -> bool {
    &&& forall|i: int, j: int|
        #![trigger listing[i], listing[j]]
        0 <= i < j < listing.len() ==> listing[i].name@ != listing[j].name@
    &&& forall|i: int, a: int, b: int|
        #![trigger listing[i].pods@[a], listing[i].pods@[b]]
        0 <= i < listing.len() && 0 <= a < b < listing[i].pods@.len() ==> listing[i].pods@[a]@
            != listing[i].pods@[b]@
    &&& forall|i: int, a: int|
        #![trigger listing[i].pods@[a]]
        0 <= i < listing.len() && 0 <= a < listing[i].pods@.len() ==> listing[i].pods@[a]@
            != listing[i].name@ + definition_suffix()
}

/// The identifier that the namespace at position `at` of a listing gets.
pub open spec fn namespace_id(listing: Seq<NamespaceListing>, at: int) -> int {
    2 + listed_nodes(listing, at)
}

/// Whether `file` is the node that `ResourceFile::new` builds from these
/// values.
pub open spec fn is_resource(
    file: ResourceFile,
    inode: Inode,
    parent: Inode,
    resource_type: ResourceType,
    name: Seq<char>,
    context: Seq<char>,
    namespace: Seq<char>,
) -> bool {
    &&& file.inode == inode
    &&& file.parent == parent
    &&& file.resource_type == resource_type
    &&& file.name@ == name
    &&& file.delete_cmd@ == kubectl_command("delete"@, resource_type, context, namespace, name)
    &&& file.description_cmd@ == kubectl_command(
        "describe"@,
        resource_type,
        context,
        namespace,
        name,
    )
}

/// Whether `definition` is the definition file of `directory`, with the
/// identifier that follows the directory's.
pub open spec fn is_definition_of(definition: ResourceFile, directory: ResourceFile) -> bool {
    &&& definition.inode == directory.inode + 1
    &&& definition.parent == directory.parent
    &&& definition.resource_type == ResourceType::Definition
    &&& definition.name@ == directory.name@ + definition_suffix()
    &&& definition.delete_cmd@ == directory.delete_cmd@
    &&& definition.description_cmd@ == directory.description_cmd@
}

/// The filesystem: every node by its identifier, and the next identifier to
/// hand out.
pub struct K8sFS {
    inode_table: BTreeMap<Inode, File>,
    next_inode: Inode,
}

fn table_get(table: &BTreeMap<Inode, File>, inode: Inode) -> (entry: Option<&File>)
    ensures
        match entry {
            Some(e) => table@.contains_key(inode) && *e == table@[inode],
            None => !table@.contains_key(inode),
        },
{
    broadcast use vstd::laws_cmp::group_laws_cmp, vstd::std_specs::btree::group_btree_axioms;

    table.get(&inode)
}

fn table_insert(table: &mut BTreeMap<Inode, File>, inode: Inode, entry: File)
    ensures
        final(table)@ == old(table)@.insert(inode, entry),
{
    broadcast use vstd::laws_cmp::group_laws_cmp, vstd::std_specs::btree::group_btree_axioms;

    table.insert(inode, entry);
}

fn table_remove(table: &mut BTreeMap<Inode, File>, inode: Inode) -> (entry: Option<File>)
    ensures
        final(table)@ == old(table)@.remove(inode),
        match entry {
            Some(e) => old(table)@.contains_key(inode) && e == old(table)@[inode],
            None => !old(table)@.contains_key(inode),
        },
{
    broadcast use vstd::laws_cmp::group_laws_cmp, vstd::std_specs::btree::group_btree_axioms;

    table.remove(&inode)
}

impl K8sFS {
    /// The node table: every node by its identifier.
    pub closed spec fn table(&self) -> Map<Inode, File> {
        self.inode_table@
    }

    /// The identifier that the next allocation hands out.
    pub closed spec fn next_id(&self) -> Inode {
        self.next_inode
    }

    /// Whether a node has this identifier.
    pub open spec fn contains(&self, inode: Inode) -> bool {
        self.table().contains_key(inode)
    }

    /// The node with this identifier.
    pub open spec fn file(&self, inode: Inode) -> ResourceFile {
        self.table()[inode].0
    }

    /// The identifiers listed in the node with this identifier, in order.
    pub open spec fn children(&self, inode: Inode) -> Seq<Inode> {
        self.table()[inode].1@
    }

    /// Whether the directory `inode` starts its listing with its own
    /// definition file, whose identifier follows its own.
    pub open spec fn has_definition(&self, inode: Inode) -> bool {
        &&& self.children(inode).len() >= 1
        &&& self.children(inode)[0] == inode + 1
        &&& is_definition_of(self.file((inode + 1) as Inode), self.file(inode))
    }

    /// What must hold of the node `inode` and of the nodes around it.
    pub open spec fn valid_node(&self, inode: Inode) -> bool {
        let node = self.file(inode);
        let listed = self.children(inode);
        &&& node.inode == inode
        &&& inode < self.next_id()
        &&& listed.len() <= self.next_id()
        &&& forall|i: int| 0 <= i < listed.len() ==> self.contains(#[trigger] listed[i])
        &&& forall|i: int, j: int| 0 <= i < j < listed.len() ==> listed[i] != listed[j]
        &&& (inode == ROOT_INODE <==> node.resource_type == ResourceType::Root)
        &&& (inode == CONTEXT_INODE <==> node.resource_type == ResourceType::Context)
        &&& match node.resource_type {
            ResourceType::Root => node.parent == ROOT_INODE && listed == seq![CONTEXT_INODE],
            ResourceType::Context => {
                &&& node.parent == ROOT_INODE
                &&& self.contains(ROOT_INODE)
                &&& forall|i: int|
                    0 <= i < listed.len() ==> {
                        &&& self.file(#[trigger] listed[i]).resource_type
                            == ResourceType::Namespace
                        &&& self.file(listed[i]).parent == CONTEXT_INODE
                    }
            },
            ResourceType::Namespace => {
                &&& node.parent == CONTEXT_INODE
                &&& self.contains(CONTEXT_INODE)
                &&& self.children(CONTEXT_INODE).contains(inode)
                &&& self.has_definition(inode)
                &&& forall|i: int|
                    1 <= i < listed.len() ==> {
                        &&& self.file(#[trigger] listed[i]).resource_type == ResourceType::Pod
                        &&& self.file(listed[i]).parent == inode
                    }
            },
            ResourceType::Pod => {
                &&& self.contains(node.parent)
                &&& self.file(node.parent).resource_type == ResourceType::Namespace
                &&& self.children(node.parent).contains(inode)
                &&& self.has_definition(inode)
                &&& listed.len() == 1
            },
            ResourceType::Definition => {
                &&& listed.len() == 0
                &&& inode >= 1
                &&& self.contains((inode - 1) as Inode)
                &&& self.file((inode - 1) as Inode).deletable()
                &&& self.children((inode - 1) as Inode).len() >= 1
                &&& self.children((inode - 1) as Inode)[0] == inode
            },
        }
    }

    /// The invariant of the tree. Every listed identifier names a node; every
    /// node but the root is listed exactly once, a directory in its parent
    /// and a definition file at the head of the directory it describes; the
    /// two fixed identifiers belong to the root and the context; every other
    /// identifier was handed out by the allocator.
    pub open spec fn wf(&self) -> bool {
        &&& 2 <= self.next_id() <= MAX_INODE
        &&& forall|inode: Inode| #[trigger] self.contains(inode) ==> self.valid_node(inode)
    }

    /// The name of the node listed at position `at` of `parent`.
    pub open spec fn name_at(&self, parent: Inode, at: int) -> Seq<char> {
        self.file(self.children(parent)[at]).name@
    }

    /// Whether no directory lists two nodes of the same name. The cluster
    /// gives no two namespaces, and no two pods of a namespace, the same
    /// name; as long as it does so, this holds of the tree.
    pub open spec fn names_unique(&self) -> bool {
        forall|parent: Inode, i: int, j: int|
            #![trigger self.name_at(parent, i), self.name_at(parent, j)]
            self.contains(parent) && 0 <= i < j < self.children(parent).len() ==> self.name_at(
                parent,
                i,
            ) != self.name_at(parent, j)
    }

    /// The first node from position `start` on, among those listed in
    /// `parent`, whose name is `name`.
    pub open spec fn child_from(&self, parent: Inode, name: Seq<char>, start: int) -> Option<
        Inode,
    >
        decreases self.children(parent).len() - start,
    {
        let listed = self.children(parent);
        if start < 0 || start >= listed.len() {
            None
        } else if self.contains(listed[start]) && self.file(listed[start]).name@ == name {
            Some(listed[start])
        } else {
            self.child_from(parent, name, start + 1)
        }
    }

    /// The node that `name` resolves to in the directory `parent`: the first
    /// one listed there with exactly this name, if `parent` exists and has
    /// one.
    pub open spec fn child_named(&self, parent: Inode, name: Seq<char>) -> Option<Inode> {
        if self.contains(parent) {
            self.child_from(parent, name, 0)
        } else {
            None
        }
    }

    /// Whether the filesystem is as `new` made it: no node yet, and no
    /// identifier handed out.
    pub open spec fn fresh(&self) -> bool {
        self.table() == Map::<Inode, File>::empty() && self.next_id() == 2
    }

    /// Whether there are identifiers enough for every node of a listing.
    pub open spec fn fits(listing: Seq<NamespaceListing>) -> bool {
        namespace_id(listing, listing.len() as int) <= MAX_INODE
    }

    /// Whether the tree and the allocator are the same in both.
    pub open spec fn same_tree(pre: K8sFS, post: K8sFS) -> bool {
        post.table() == pre.table() && post.next_id() == pre.next_id()
    }

    /// What building a directory does to the tree: two fresh identifiers,
    /// the first for the directory `name` of kind `resource_type` under
    /// `parent`, the second for its definition file, which the directory
    /// lists; the directory appended to what `parent` lists; nothing else
    /// changed.
    pub open spec fn grown(
        pre: K8sFS,
        post: K8sFS,
        parent: Inode,
        resource_type: ResourceType,
        name: Seq<char>,
        context: Seq<char>,
        namespace: Seq<char>,
    ) -> bool {
        let inode = pre.next_id();
        let definition = (inode + 1) as Inode;
        &&& post.next_id() == inode + 2
        &&& post.table().dom() =~= pre.table().dom().insert(inode).insert(definition)
        &&& forall|k: Inode| #[trigger]
            pre.contains(k) && k != parent ==> post.table()[k] == pre.table()[k]
        &&& post.file(parent) == pre.file(parent)
        &&& post.children(parent) == pre.children(parent).push(inode)
        &&& is_resource(post.file(inode), inode, parent, resource_type, name, context, namespace)
        &&& post.children(inode) == seq![definition]
        &&& is_definition_of(post.file(definition), post.file(inode))
        &&& post.children(definition) == Seq::<Inode>::empty()
    }

    /// Whether `pod` is a pod of the namespace `root`.
    pub open spec fn is_pod_of(&self, root: Inode, pod: Inode) -> bool {
        self.file(pod).resource_type == ResourceType::Pod && self.file(pod).parent == root
    }

    /// Whether `inode` belongs to the namespace `root`: the namespace itself,
    /// one of its pods, or the definition file of either.
    pub open spec fn in_subtree(&self, root: Inode, inode: Inode) -> bool {
        ||| inode == root
        ||| inode == root + 1
        ||| self.is_pod_of(root, inode)
        ||| (inode >= 1 && self.contains((inode - 1) as Inode) && self.is_pod_of(
            root,
            (inode - 1) as Inode,
        ))
    }

    /// The part of the subtree of `root` that is reached through the first
    /// `done` entries of what `root` lists.
    spec fn in_subtree_before(&self, root: Inode, inode: Inode, done: int) -> bool {
        let listed = self.children(root);
        ||| inode == root
        ||| (inode == root + 1 && done > 0)
        ||| (self.is_pod_of(root, inode) && listed.index_of(inode) < done)
        ||| (inode >= 1 && self.contains((inode - 1) as Inode) && self.is_pod_of(
            root,
            (inode - 1) as Inode,
        ) && listed.index_of((inode - 1) as Inode) < done)
    }

    /// What removing the namespace `root` does to the tree: the namespace,
    /// its pods and all their definition files are gone, the context no
    /// longer lists the namespace, and nothing else changed.
    pub open spec fn pruned(pre: K8sFS, post: K8sFS, root: Inode) -> bool {
        let listed = pre.children(CONTEXT_INODE);
        &&& post.next_id() == pre.next_id()
        &&& forall|k: Inode| #[trigger]
            post.contains(k) <==> pre.contains(k) && !pre.in_subtree(root, k)
        &&& forall|k: Inode| #[trigger]
            post.contains(k) && k != CONTEXT_INODE ==> post.table()[k] == pre.table()[k]
        &&& post.file(CONTEXT_INODE) == pre.file(CONTEXT_INODE)
        &&& post.children(CONTEXT_INODE) == listed.remove(listed.index_of(root))
    }

    /// Whether `pod` is the node of the pod at position `at` among the pods
    /// of the listed namespace `index`, whose node is `namespace`.
    pub open spec fn mirrors_pod(
        &self,
        context: Seq<char>,
        listing: Seq<NamespaceListing>,
        index: int,
        at: int,
        namespace: Inode,
        pod: Inode,
    ) -> bool {
        &&& pod == namespace + 2 + 2 * at
        &&& self.contains(pod)
        &&& is_resource(
            self.file(pod),
            pod,
            namespace,
            ResourceType::Pod,
            listing[index].pods@[at]@,
            context,
            listing[index].name@,
        )
    }

    /// Whether `namespace` is the node of the namespace at position `index`
    /// of the listing, and lists, after its definition file, the nodes of
    /// exactly its pods, in their order.
    pub open spec fn mirrors_namespace(
        &self,
        context: Seq<char>,
        listing: Seq<NamespaceListing>,
        index: int,
        namespace: Inode,
    ) -> bool {
        &&& namespace == namespace_id(listing, index)
        &&& self.contains(namespace)
        &&& is_resource(
            self.file(namespace),
            namespace,
            CONTEXT_INODE,
            ResourceType::Namespace,
            listing[index].name@,
            context,
            listing[index].name@,
        )
        &&& self.children(namespace).len() == 1 + listing[index].pods@.len()
        &&& forall|at: int|
            0 <= at < listing[index].pods@.len() ==> self.mirrors_pod(
                context,
                listing,
                index,
                at,
                namespace,
                #[trigger] self.children(namespace)[1 + at],
            )
    }

    /// Whether the tree is the one that a listing gives: the root, the
    /// context, and under the context the namespaces of the listing in their
    /// order, each with its pods, and nothing else. Its identifiers are all
    /// those below the next one.
    pub open spec fn mirrors(&self, context: Seq<char>, listing: Seq<NamespaceListing>) -> bool {
        &&& self.wf()
        &&& self.next_id() == namespace_id(listing, listing.len() as int)
        &&& forall|k: Inode| #[trigger] self.contains(k) <==> k < self.next_id()
        &&& is_resource(
            self.file(ROOT_INODE),
            ROOT_INODE,
            ROOT_INODE,
            ResourceType::Root,
            "root"@,
            ""@,
            ""@,
        )
        &&& is_resource(
            self.file(CONTEXT_INODE),
            CONTEXT_INODE,
            ROOT_INODE,
            ResourceType::Context,
            context,
            context,
            ""@,
        )
        &&& self.children(CONTEXT_INODE).len() == listing.len()
        &&& forall|index: int|
            0 <= index < listing.len() ==> self.mirrors_namespace(
                context,
                listing,
                index,
                #[trigger] self.children(CONTEXT_INODE)[index],
            )
    }

    /// The entry of the node `inode`, given what its description command
    /// produced.
    pub open spec fn entry_reply(
        &self,
        inode: Inode,
        description: Option<CommandOutput>,
    ) -> EntryReply {
        EntryReply {
            ttl: TTL_SECS,
            attr: self.file(inode).attributes(description),
            generation: 0,
        }
    }

    /// The position at which a listing of `inode` that is resumed at the
    /// cursor `offset` starts. A cursor outside the list starts at its end.
    pub open spec fn listing_start(&self, inode: Inode, offset: int) -> int {
        if 0 <= offset <= self.children(inode).len() {
            offset
        } else {
            self.children(inode).len() as int
        }
    }

    /// The entry of the node listed at position `at` of `inode`. Its cursor
    /// is the position after it.
    pub open spec fn entry(&self, inode: Inode, at: int) -> DirEntryView {
        let child = self.file(self.children(inode)[at]);
        DirEntryView {
            inode: child.inode,
            offset: (at + 1) as i64,
            kind: child.filetype(),
            name: child.name@,
        }
    }

    /// The listing of the directory `inode` from the cursor `offset` to the
    /// end, in the order of the directory.
    pub open spec fn listing(&self, inode: Inode, offset: int) -> Seq<DirEntryView> {
        let start = self.listing_start(inode, offset);
        Seq::new(
            (self.children(inode).len() - start) as nat,
            |i: int| self.entry(inode, start + i),
        )
    }

    /// What to answer after the entries of a listing were handed to the
    /// caller's buffer, which took the first `taken` of the `listed` ones:
    /// a buffer that could not take them all is told, so that the caller
    /// resumes at the cursor of the last entry that fitted.
    pub open spec fn listing_answer(listed: int, taken: int) -> Result<(), FsError> {
        if taken < listed {
            Err(FsError::NoBuffers)
        } else {
            Ok(())
        }
    }
}

impl K8sFS {
    /// A filesystem with no node yet.
    pub fn new() -> (fs: Self)
        ensures
            fs.fresh(),
            fs.wf(),
    {
        K8sFS { inode_table: BTreeMap::new(), next_inode: 2 }
    }

    /// The name under which the filesystem is mounted.
    pub fn name(&self) -> (name: String)
        ensures
            name@ == "KubernetesFS"@,
    {
        String::from_str("KubernetesFS")
    }

    /// The next identifier to be handed out.
    pub fn next_inode(&self) -> (inode: Inode)
        ensures
            inode == self.next_id(),
    {
        self.next_inode
    }

    /// Hands out the next identifier. Identifiers only count up: one that
    /// was handed out is never handed out again.
    pub fn calculate_next_inode(&mut self) -> (inode: Inode)
        requires
            old(self).next_id() < MAX_INODE,
        ensures
            inode == old(self).next_id(),
            final(self).next_id() == inode + 1,
            final(self).table() == old(self).table(),
            old(self).wf() ==> final(self).wf(),
    {
        let inode = self.next_inode;
        self.next_inode += 1;
        assert forall|k: Inode| #[trigger] self.contains(k) && old(self).wf() implies self.valid_node(
            k,
        ) by {
            assert(old(self).contains(k));
            assert(old(self).valid_node(k));
        }
        inode
    }

    /// Search for a node by its identifier.
    pub fn get_file_by_inode(&self, inode: Inode) -> (file: Option<&ResourceFile>)
        ensures
            file is Some <==> self.contains(inode),
            file matches Some(f) ==> *f == self.file(inode),
    {
        match table_get(&self.inode_table, inode) {
            Some(entry) => Some(&entry.0),
            None => None,
        }
    }

    /// Search for a node by name among those listed in `parent_inode`. The
    /// match is exact and case-sensitive.
    pub fn get_file_by_name(&self, name: &str, parent_inode: Inode) -> (file: Option<
        &ResourceFile,
    >)
        ensures
            file is Some <==> self.child_named(parent_inode, name@) is Some,
            file matches Some(f) ==> *f == self.file(self.child_named(parent_inode, name@)->0),
    {
        let wanted = String::from_str(name);
        match table_get(&self.inode_table, parent_inode) {
            None => None,
            Some(entry) => {
                let listed = &entry.1;
                let mut i: usize = 0;
                while i < listed.len()
                    invariant
                        i <= listed.len(),
                        listed@ == self.children(parent_inode),
                        self.contains(parent_inode),
                        wanted@ == name@,
                        self.child_from(parent_inode, name@, 0) == self.child_from(
                            parent_inode,
                            name@,
                            i as int,
                        ),
                    decreases listed.len() - i,
                {
                    match table_get(&self.inode_table, listed[i]) {
                        Some(found) => {
                            if found.0.name == wanted {
                                return Some(&found.0);
                            }
                        },
                        None => {},
                    }
                    i += 1;
                }
                None
            },
        }
    }

    /// Registers the directory `name` and its definition file under two
    /// fresh identifiers. The directory is not yet listed anywhere.
    fn build_resource_file(
        &mut self,
        name: &str,
        resource_type: ResourceType,
        parent_inode: Inode,
        context: &str,
        namespace: &str,
    ) -> (inode: Inode)
        requires
            old(self).next_id() + 2 <= MAX_INODE,
        ensures
            inode == old(self).next_id(),
            final(self).next_id() == inode + 2,
            final(self).table().dom() =~= old(self).table().dom().insert(inode).insert(
                (inode + 1) as Inode,
            ),
            forall|k: Inode| #[trigger]
                old(self).contains(k) && k != inode && k != inode + 1 ==> final(self).table()[k]
                    == old(self).table()[k],
            is_resource(
                final(self).file(inode),
                inode,
                parent_inode,
                resource_type,
                name@,
                context@,
                namespace@,
            ),
            final(self).children(inode) == seq![(inode + 1) as Inode],
            is_definition_of(final(self).file((inode + 1) as Inode), final(self).file(inode)),
            final(self).children((inode + 1) as Inode) == Seq::<Inode>::empty(),
    {
        let inode = self.calculate_next_inode();
        let mut children = Vec::new();
        let file = ResourceFile::new(inode, parent_inode, name, resource_type, context, namespace);
        let definition_file = file.create_definition_file(self.calculate_next_inode());
        children.push(definition_file.inode);
        let definition_inode = definition_file.inode;
        table_insert(&mut self.inode_table, definition_inode, (definition_file, Vec::new()));
        table_insert(&mut self.inode_table, inode, (file, children));
        inode
    }

    /// Appends `child` to what the node `parent` lists.
    fn add_child_to_inode(&mut self, parent: Inode, child: Inode)
        requires
            old(self).contains(parent),
        ensures
            final(self).next_id() == old(self).next_id(),
            final(self).table().dom() =~= old(self).table().dom(),
            forall|k: Inode| #[trigger]
                old(self).contains(k) && k != parent ==> final(self).table()[k] == old(
                    self,
                ).table()[k],
            final(self).file(parent) == old(self).file(parent),
            final(self).children(parent) == old(self).children(parent).push(child),
    {
        match table_remove(&mut self.inode_table, parent) {
            Some(entry) => {
                let (file, mut listed) = entry;
                listed.push(child);
                table_insert(&mut self.inode_table, parent, (file, listed));
            },
            None => {},
        }
    }

    /// Builds the directory `name` with its definition file and lists it in
    /// `parent`: a namespace under the context, or a pod under a namespace.
    fn add_directory(
        &mut self,
        name: &str,
        resource_type: ResourceType,
        parent: Inode,
        context: &str,
        namespace: &str,
    ) -> (inode: Inode)
        requires
            old(self).wf(),
            old(self).contains(parent),
            old(self).next_id() + 2 <= MAX_INODE,
            (parent == CONTEXT_INODE && resource_type == ResourceType::Namespace) || (old(
                self,
            ).file(parent).resource_type == ResourceType::Namespace && resource_type
                == ResourceType::Pod),
        ensures
            inode == old(self).next_id(),
            final(self).wf(),
            Self::grown(
                *old(self),
                *final(self),
                parent,
                resource_type,
                name@,
                context@,
                namespace@,
            ),
    {
        proof {
            let fresh = self.next_id();
            if self.contains(fresh) {
                assert(self.valid_node(fresh));
            }
            if self.contains((fresh + 1) as Inode) {
                assert(self.valid_node((fresh + 1) as Inode));
            }
            assert(self.valid_node(parent));
        }
        let inode = self.build_resource_file(name, resource_type, parent, context, namespace);
        let ghost built = *self;
        self.add_child_to_inode(parent, inode);
        proof {
            assert forall|k: Inode| #[trigger]
                old(self).contains(k) && k != parent implies self.table()[k] == old(
                self,
            ).table()[k] by {
                assert(built.contains(k));
            }
            let definition = (inode + 1) as Inode;
            assert(built.table()[parent] == old(self).table()[parent]);
            assert(built.contains(inode) && built.contains(definition));
            assert(self.table()[inode] == built.table()[inode]);
            assert(self.table()[definition] == built.table()[definition]);
            Self::lemma_grown_wf(
                *old(self),
                *self,
                parent,
                resource_type,
                name@,
                context@,
                namespace@,
            );
        }
        inode
    }

    /// Whether the tree can be built from this listing: nothing was built
    /// before, and the identifiers suffice.
    pub fn can_initialize(&self, namespaces: &Vec<NamespaceListing>) -> (ready: bool)
        ensures
            ready == (self.fresh() && Self::fits(namespaces@)),
    {
        if !self.inode_table.is_empty() || self.next_inode != 2 {
            return false;
        }
        assert(self.table() =~= Map::<Inode, File>::empty());
        let mut total: u64 = 2;
        let mut i: usize = 0;
        while i < namespaces.len()
            invariant
                i <= namespaces.len(),
                total == namespace_id(namespaces@, i as int),
                total <= MAX_INODE,
            decreases namespaces.len() - i,
        {
            let pods = namespaces[i].pods.len();
            let room = MAX_INODE - total;
            if room < 2 || pods as u64 > (room - 2) / 2 {
                proof {
                    crate::tree_proofs::lemma_listed_nodes_grow(
                        namespaces@,
                        i + 1,
                        namespaces@.len() as int,
                    );
                }
                return false;
            }
            total = total + 2 + 2 * (pods as u64);
            i += 1;
        }
        true
    }

    /// Builds the tree from what the cluster lists: the root, the context
    /// named `context`, and for every namespace, in the order of the
    /// listing, its directory with the directories of its pods.
    pub fn initialize_inode_table(&mut self, context: &str, namespaces: &Vec<NamespaceListing>)
        requires
            old(self).fresh(),
            Self::fits(namespaces@),
        ensures
            final(self).mirrors(context@, namespaces@),
            distinct_names(namespaces@) ==> final(self).names_unique(),
    {
        let root = ResourceFile::new(ROOT_INODE, ROOT_INODE, "root", ResourceType::Root, "", "");
        let context_file = ResourceFile::new(
            CONTEXT_INODE,
            ROOT_INODE,
            context,
            ResourceType::Context,
            context,
            "",
        );
        let mut root_children = Vec::new();
        root_children.push(context_file.inode);
        table_insert(&mut self.inode_table, ROOT_INODE, (root, root_children));
        table_insert(&mut self.inode_table, CONTEXT_INODE, (context_file, Vec::new()));
        proof {
            assert(self.children(ROOT_INODE) =~= seq![CONTEXT_INODE]);
            assert(self.contains(ROOT_INODE) && self.contains(CONTEXT_INODE));
            assert forall|k: Inode| #[trigger] self.contains(k) implies self.valid_node(k) by {
                assert(k == ROOT_INODE || k == CONTEXT_INODE);
            }
        }
        let ghost listing = namespaces@;
        let mut i: usize = 0;
        while i < namespaces.len()
            invariant
                i <= namespaces.len(),
                listing == namespaces@,
                namespace_id(listing, listing.len() as int) <= MAX_INODE,
                self.wf(),
                self.next_id() == namespace_id(listing, i as int),
                forall|k: Inode| #[trigger] self.contains(k) <==> k < self.next_id(),
                is_resource(
                    self.file(ROOT_INODE),
                    ROOT_INODE,
                    ROOT_INODE,
                    ResourceType::Root,
                    "root"@,
                    ""@,
                    ""@,
                ),
                is_resource(
                    self.file(CONTEXT_INODE),
                    CONTEXT_INODE,
                    ROOT_INODE,
                    ResourceType::Context,
                    context@,
                    context@,
                    ""@,
                ),
                self.children(CONTEXT_INODE).len() == i,
                forall|index: int|
                    0 <= index < i ==> self.mirrors_namespace(
                        context@,
                        listing,
                        index,
                        #[trigger] self.children(CONTEXT_INODE)[index],
                    ),
            decreases namespaces.len() - i,
        {
            let namespace = &namespaces[i];
            let ghost before = *self;
            proof {
                crate::tree_proofs::lemma_listed_nodes_grow(listing, i + 1, listing.len() as int);
                assert(self.contains(CONTEXT_INODE));
            }
            let namespace_inode = self.add_directory(
                namespace.name.as_str(),
                ResourceType::Namespace,
                CONTEXT_INODE,
                context,
                namespace.name.as_str(),
            );
            proof {
                assert(before.contains(ROOT_INODE));
                assert forall|k: Inode| #[trigger] self.contains(k) <==> k < self.next_id() by {
                    assert(self.table().dom().contains(k) <==> before.contains(k) || k
                        == namespace_inode || k == namespace_inode + 1);
                }
                assert forall|index: int| 0 <= index < i implies self.mirrors_namespace(
                    context@,
                    listing,
                    index,
                    #[trigger] self.children(CONTEXT_INODE)[index],
                ) by {
                    Self::lemma_mirror_kept(
                        before,
                        *self,
                        context@,
                        listing,
                        index,
                        before.children(CONTEXT_INODE)[index],
                        CONTEXT_INODE,
                    );
                }
            }
            let mut j: usize = 0;
            while j < namespace.pods.len()
                invariant
                    i < namespaces.len(),
                    j <= namespace.pods.len(),
                    listing == namespaces@,
                    *namespace == listing[i as int],
                    namespace_id(listing, listing.len() as int) <= MAX_INODE,
                    self.wf(),
                    namespace_inode == namespace_id(listing, i as int),
                    self.next_id() == namespace_inode + 2 + 2 * j,
                    forall|k: Inode| #[trigger] self.contains(k) <==> k < self.next_id(),
                    is_resource(
                        self.file(ROOT_INODE),
                        ROOT_INODE,
                        ROOT_INODE,
                        ResourceType::Root,
                        "root"@,
                        ""@,
                        ""@,
                    ),
                    is_resource(
                        self.file(CONTEXT_INODE),
                        CONTEXT_INODE,
                        ROOT_INODE,
                        ResourceType::Context,
                        context@,
                        context@,
                        ""@,
                    ),
                    self.children(CONTEXT_INODE).len() == i + 1,
                    self.children(CONTEXT_INODE)[i as int] == namespace_inode,
                    forall|index: int|
                        0 <= index < i ==> self.mirrors_namespace(
                            context@,
                            listing,
                            index,
                            #[trigger] self.children(CONTEXT_INODE)[index],
                        ),
                    is_resource(
                        self.file(namespace_inode),
                        namespace_inode,
                        CONTEXT_INODE,
                        ResourceType::Namespace,
                        namespace.name@,
                        context@,
                        namespace.name@,
                    ),
                    self.children(namespace_inode).len() == 1 + j,
                    forall|at: int|
                        0 <= at < j ==> self.mirrors_pod(
                            context@,
                            listing,
                            i as int,
                            at,
                            namespace_inode,
                            #[trigger] self.children(namespace_inode)[1 + at],
                        ),
                decreases namespace.pods.len() - j,
            {
                let pod = &namespace.pods[j];
                let ghost inner = *self;
                proof {
                    crate::tree_proofs::lemma_listed_nodes_grow(listing, i + 1, listing.len() as int);
                    assert(self.contains(namespace_inode));
                    assert(self.contains(CONTEXT_INODE));
                }
                self.add_directory(
                    pod.as_str(),
                    ResourceType::Pod,
                    namespace_inode,
                    context,
                    namespace.name.as_str(),
                );
                proof {
                    assert(inner.contains(ROOT_INODE));
                    assert forall|k: Inode| #[trigger]
                        self.contains(k) <==> k < self.next_id() by {
                        assert(self.table().dom().contains(k) <==> inner.contains(k) || k
                            == inner.next_id() || k == inner.next_id() + 1);
                    }
                    assert forall|index: int| 0 <= index < i implies self.mirrors_namespace(
                        context@,
                        listing,
                        index,
                        #[trigger] self.children(CONTEXT_INODE)[index],
                    ) by {
                        crate::tree_proofs::lemma_listed_nodes_grow(listing, index + 1, i as int);
                        Self::lemma_mirror_kept(
                            inner,
                            *self,
                            context@,
                            listing,
                            index,
                            inner.children(CONTEXT_INODE)[index],
                            namespace_inode,
                        );
                    }
                    assert forall|at: int| 0 <= at < j + 1 implies self.mirrors_pod(
                        context@,
                        listing,
                        i as int,
                        at,
                        namespace_inode,
                        #[trigger] self.children(namespace_inode)[1 + at],
                    ) by {
                        if at < j {
                            let known = inner.children(namespace_inode)[1 + at];
                            assert(inner.mirrors_pod(
                                context@,
                                listing,
                                i as int,
                                at,
                                namespace_inode,
                                known,
                            ));
                            assert(inner.contains(known));
                        }
                    }
                }
                j += 1;
            }
            i += 1;
        }
        proof {
            if distinct_names(listing) {
                crate::laws::lemma_initial_names_unique(*self, context@, listing);
            }
        }
    }

    /// Deletes the namespace `inode` from the tree, with everything that
    /// belongs to it, and unlinks it from `parent`, in one step.
    fn clean_up_inode(&mut self, inode: Inode, parent: Inode)
        requires
            old(self).wf(),
            old(self).contains(inode),
            old(self).file(inode).resource_type == ResourceType::Namespace,
            parent == CONTEXT_INODE,
        ensures
            final(self).wf(),
            Self::pruned(*old(self), *final(self), inode),
    {
        let ghost pre = *self;
        proof {
            assert(pre.valid_node(inode));
            assert(pre.contains(CONTEXT_INODE));
            assert(pre.valid_node(CONTEXT_INODE));
        }
        let removed = table_remove(&mut self.inode_table, inode);
        let listed = match removed {
            Some(entry) => entry.1,
            None => Vec::new(),
        };
        proof {
            assert forall|k: Inode| #[trigger]
                self.contains(k) <==> pre.contains(k) && !pre.in_subtree_before(inode, k, 0) by {
                if pre.contains(k) {
                    if pre.is_pod_of(inode, k) {
                        pre.lemma_pod_listed(inode, k);
                    }
                    if k >= 1 && pre.contains((k - 1) as Inode) && pre.is_pod_of(
                        inode,
                        (k - 1) as Inode,
                    ) {
                        pre.lemma_pod_listed(inode, (k - 1) as Inode);
                    }
                }
            }
        }
        let mut i: usize = 0;
        while i < listed.len()
            invariant
                i <= listed.len(),
                pre.wf(),
                pre.contains(inode),
                pre.file(inode).resource_type == ResourceType::Namespace,
                listed@ == pre.children(inode),
                self.next_id() == pre.next_id(),
                forall|k: Inode| #[trigger]
                    self.contains(k) <==> pre.contains(k) && !pre.in_subtree_before(
                        inode,
                        k,
                        i as int,
                    ),
                forall|k: Inode| #[trigger]
                    self.contains(k) ==> self.table()[k] == pre.table()[k],
            decreases listed.len() - i,
        {
            let child = listed[i];
            let ghost before = *self;
            proof {
                assert(pre.valid_node(inode));
                assert(pre.contains(child));
                assert(pre.valid_node(child));
                pre.lemma_listed_at(inode, i as int);
            }
            table_remove(&mut self.inode_table, child);
            if i >= 1 {
                table_remove(&mut self.inode_table, child + 1);
            }
            proof {
                assert forall|k: Inode| #[trigger] self.contains(k) implies self.table()[k]
                    == pre.table()[k] by {
                    assert(before.contains(k));
                }
                assert forall|k: Inode| #[trigger]
                    self.contains(k) <==> pre.contains(k) && !pre.in_subtree_before(
                        inode,
                        k,
                        i + 1,
                    ) by {
                    assert(self.contains(k) <==> before.contains(k) && k != child && !(i >= 1 && k
                        == child + 1));
                    if pre.contains(k) {
                        assert(pre.valid_node(k));
                        if pre.is_pod_of(inode, k) {
                            pre.lemma_pod_listed(inode, k);
                        }
                        if k >= 1 && pre.contains((k - 1) as Inode) && pre.is_pod_of(
                            inode,
                            (k - 1) as Inode,
                        ) {
                            pre.lemma_pod_listed(inode, (k - 1) as Inode);
                        }
                    }
                }
            }
            i += 1;
        }
        proof {
            assert forall|k: Inode| #[trigger]
                self.contains(k) <==> pre.contains(k) && !pre.in_subtree(inode, k) by {
                if pre.contains(k) {
                    if pre.is_pod_of(inode, k) {
                        pre.lemma_pod_listed(inode, k);
                    }
                    if k >= 1 && pre.contains((k - 1) as Inode) && pre.is_pod_of(
                        inode,
                        (k - 1) as Inode,
                    ) {
                        pre.lemma_pod_listed(inode, (k - 1) as Inode);
                    }
                }
            }
            assert(!pre.in_subtree(inode, CONTEXT_INODE)) by {
                assert(pre.contains(ROOT_INODE));
                assert(pre.valid_node(ROOT_INODE));
                assert(pre.contains((inode + 1) as Inode)) by {
                    assert(pre.contains(pre.children(inode)[0]));
                }
                assert(pre.valid_node((inode + 1) as Inode));
            }
        }
        let ghost unlinked = *self;
        proof {
            assert(self.contains(CONTEXT_INODE));
            assert(self.table()[CONTEXT_INODE] == pre.table()[CONTEXT_INODE]);
        }
        match table_remove(&mut self.inode_table, parent) {
            Some(entry) => {
                let (file, mut siblings) = entry;
                let ghost found = siblings@.index_of(inode);
                proof {
                    assert(siblings@ == pre.children(CONTEXT_INODE));
                    assert(siblings@.contains(inode));
                    assert(0 <= found < siblings@.len() && siblings@[found] == inode);
                }
                let mut at: usize = 0;
                while at < siblings.len() && siblings[at] != inode
                    invariant
                        at <= found < siblings.len(),
                        siblings@[found] == inode,
                        forall|j: int| 0 <= j < at ==> siblings@[j] != inode,
                    decreases siblings.len() - at,
                {
                    at += 1;
                }
                proof {
                    pre.lemma_listed_at(CONTEXT_INODE, at as int);
                }
                siblings.remove(at);
                table_insert(&mut self.inode_table, parent, (file, siblings));
            },
            None => {},
        }
        proof {
            assert forall|k: Inode| #[trigger]
                self.contains(k) <==> pre.contains(k) && !pre.in_subtree(inode, k) by {
                assert(self.contains(k) <==> unlinked.contains(k));
            }
            assert forall|k: Inode| #[trigger]
                self.contains(k) && k != CONTEXT_INODE implies self.table()[k]
                == pre.table()[k] by {
                assert(unlinked.contains(k));
            }
            Self::lemma_pruned_wf(pre, *self, inode);
        }
    }

    /// Resolves `name` in the directory `parent` and answers with the
    /// attributes of the node found, given what the description command of
    /// that node produced. `get_file_by_name` finds the node beforehand, so
    /// that its command can be run.
    pub fn lookup(&self, parent: Inode, name: &str, description: &Option<CommandOutput>) -> (reply:
        Result<EntryReply, FsError>)
        ensures
            match self.child_named(parent, name@) {
                Some(inode) => reply == Ok::<EntryReply, FsError>(
                    self.entry_reply(inode, *description),
                ),
                None => reply == Err::<EntryReply, FsError>(FsError::NotFound),
            },
    {
        match self.get_file_by_name(name, parent) {
            Some(file) => Ok(
                EntryReply { ttl: TTL_SECS, attr: file.fileattrs(description), generation: 0 },
            ),
            None => Err(FsError::NotFound),
        }
    }

    /// Answers with the attributes of the node `inode`, given what the
    /// description command of that node produced. `get_file_by_inode` finds
    /// the node beforehand, so that its command can be run.
    pub fn getattr(&self, inode: Inode, description: &Option<CommandOutput>) -> (reply: Result<
        AttrReply,
        FsError,
    >)
        ensures
            self.contains(inode) ==> reply == Ok::<AttrReply, FsError>(
                AttrReply { ttl: TTL_SECS, attr: self.file(inode).attributes(*description) },
            ),
            !self.contains(inode) ==> reply == Err::<AttrReply, FsError>(FsError::NotFound),
    {
        match self.get_file_by_inode(inode) {
            Some(file) => Ok(AttrReply { ttl: TTL_SECS, attr: file.fileattrs(description) }),
            None => Err(FsError::NotFound),
        }
    }

    /// Whether the tree can take one more namespace: it has its context,
    /// and two identifiers are left.
    pub fn can_create(&self) -> (ready: bool)
        ensures
            ready == (self.contains(CONTEXT_INODE) && self.next_id() + 2 <= MAX_INODE),
    {
        self.get_file_by_inode(CONTEXT_INODE).is_some() && self.next_inode <= MAX_INODE - 2
    }

    /// Decides whether a directory may be created in `parent`, before the
    /// cluster is asked: only the context takes new directories. The answer
    /// names the context in which the namespace is to be created.
    pub fn mkdir_request(&self, parent: Inode) -> (reply: Result<String, FsError>)
        requires
            self.wf(),
            parent == CONTEXT_INODE ==> self.contains(CONTEXT_INODE),
        ensures
            parent != CONTEXT_INODE ==> reply == Err::<String, FsError>(FsError::PermissionDenied),
            parent == CONTEXT_INODE ==> reply is Ok && reply->Ok_0@ == self.file(
                CONTEXT_INODE,
            ).name@,
    {
        if parent == CONTEXT_INODE {
            match self.get_file_by_inode(CONTEXT_INODE) {
                Some(context) => Ok(context.name.clone()),
                None => Err(FsError::PermissionDenied),
            }
        } else {
            Err(FsError::PermissionDenied)
        }
    }

    /// Creates the directory `name` in `parent`, given whether the cluster
    /// created the namespace. Outside the context, or when the cluster
    /// refused, nothing changes.
    pub fn mkdir(&mut self, parent: Inode, name: &str, created: bool) -> (reply: Result<
        EntryReply,
        FsError,
    >)
        requires
            old(self).wf(),
            parent == CONTEXT_INODE && created ==> old(self).contains(CONTEXT_INODE) && old(
                self,
            ).next_id() + 2 <= MAX_INODE,
        ensures
            final(self).wf(),
            parent != CONTEXT_INODE || !created ==> reply == Err::<EntryReply, FsError>(
                FsError::PermissionDenied,
            ) && Self::same_tree(*old(self), *final(self)),
            parent == CONTEXT_INODE && created ==> reply == Ok::<EntryReply, FsError>(
                final(self).entry_reply(old(self).next_id(), None),
            ) && Self::grown(
                *old(self),
                *final(self),
                CONTEXT_INODE,
                ResourceType::Namespace,
                name@,
                old(self).file(CONTEXT_INODE).name@,
                name@,
            ),
            old(self).names_unique() && (parent == CONTEXT_INODE && created ==> old(
                self,
            ).child_named(CONTEXT_INODE, name@) is None) ==> final(self).names_unique(),
    {
        if parent == CONTEXT_INODE {
            if !created {
                return Err(FsError::PermissionDenied);
            }
            let context = match table_get(&self.inode_table, CONTEXT_INODE) {
                Some(entry) => entry.0.name.clone(),
                None => String::new(),
            };
            let namespace_inode = self.add_directory(
                name,
                ResourceType::Namespace,
                CONTEXT_INODE,
                context.as_str(),
                name,
            );
            proof {
                if old(self).names_unique() && old(self).child_named(CONTEXT_INODE, name@)
                    is None {
                    crate::laws::lemma_created_names_unique(
                        *old(self),
                        *self,
                        name@,
                        context@,
                    );
                }
            }
            match table_get(&self.inode_table, namespace_inode) {
                Some(entry) => Ok(
                    EntryReply { ttl: TTL_SECS, attr: entry.0.fileattrs(&None), generation: 0 },
                ),
                None => Err(FsError::PermissionDenied),
            }
        } else {
            Err(FsError::PermissionDenied)
        }
    }

    /// Decides what removing the directory `name` from `parent` takes,
    /// before the cluster is asked. Only the context gives directories up.
    /// A name that does not resolve is already gone, and nothing is to be
    /// run; otherwise the answer is the command that deletes the namespace.
    pub fn rmdir_request(&self, parent: Inode, name: &str) -> (reply: Result<
        Option<String>,
        FsError,
    >)
        requires
            self.wf(),
        ensures
            parent != CONTEXT_INODE ==> reply == Err::<Option<String>, FsError>(
                FsError::PermissionDenied,
            ),
            parent == CONTEXT_INODE ==> match self.child_named(parent, name@) {
                None => reply == Ok::<Option<String>, FsError>(None),
                Some(inode) => reply matches Ok(Some(command)) && command@ == self.file(
                    inode,
                ).delete_cmd@,
            },
    {
        if parent == CONTEXT_INODE {
            match self.get_file_by_name(name, parent) {
                Some(file) => Ok(Some(file.delete_cmd.clone())),
                None => Ok(None),
            }
        } else {
            Err(FsError::PermissionDenied)
        }
    }

    /// Removes the directory `name` from `parent`, given what the delete
    /// command of the node produced. A name that does not resolve is
    /// already gone, which is a success; when the cluster did not delete the
    /// namespace, nothing changes.
    pub fn rmdir(&mut self, parent: Inode, name: &str, outcome: &Option<CommandOutput>) -> (reply:
        Result<(), FsError>)
        requires
            old(self).wf(),
        ensures
            final(self).wf(),
            parent != CONTEXT_INODE ==> reply == Err::<(), FsError>(FsError::PermissionDenied)
                && Self::same_tree(*old(self), *final(self)),
            parent == CONTEXT_INODE ==> match old(self).child_named(parent, name@) {
                None => reply == Ok::<(), FsError>(()) && Self::same_tree(
                    *old(self),
                    *final(self),
                ),
                Some(inode) => if old(self).file(inode).deleted(*outcome) {
                    reply == Ok::<(), FsError>(()) && Self::pruned(
                        *old(self),
                        *final(self),
                        inode,
                    )
                } else {
                    reply == Err::<(), FsError>(FsError::PermissionDenied) && Self::same_tree(
                        *old(self),
                        *final(self),
                    )
                },
            },
            old(self).names_unique() ==> final(self).names_unique(),
    {
        if parent == CONTEXT_INODE {
            let mut inode_to_delete: Option<Inode> = None;
            match self.get_file_by_name(name, parent) {
                Some(file) => {
                    if !file.delete(outcome) {
                        return Err(FsError::PermissionDenied);
                    }
                    inode_to_delete = Some(file.inode);
                },
                None => {},
            }
            match inode_to_delete {
                Some(inode) => {
                    proof {
                        self.lemma_child_named(parent, name@);
                        assert(self.valid_node(CONTEXT_INODE));
                    }
                    self.clean_up_inode(inode, parent);
                    proof {
                        if old(self).names_unique() {
                            crate::laws::lemma_removed_names_unique(*old(self), *self, inode);
                        }
                    }
                },
                None => {},
            }
            Ok(())
        } else {
            Err(FsError::PermissionDenied)
        }
    }

    /// The entries of the directory `inode` from the cursor `offset` on.
    pub fn list_directory(&self, inode: Inode, offset: i64) -> (reply: Result<
        Vec<DirEntry>,
        FsError,
    >)
        requires
            self.wf(),
        ensures
            !self.contains(inode) ==> reply == Err::<Vec<DirEntry>, FsError>(FsError::NotFound),
            self.contains(inode) ==> reply is Ok && reply->Ok_0@.map_values(|e: DirEntry| e@)
                == self.listing(inode, offset as int),
    {
        match table_get(&self.inode_table, inode) {
            None => Err(FsError::NotFound),
            Some(entry) => {
                let listed = &entry.1;
                proof {
                    assert(self.contains(inode));
                    assert(self.valid_node(inode));
                }
                let mut entries: Vec<DirEntry> = Vec::new();
                let start: usize = if offset < 0 || offset as u64 > listed.len() as u64 {
                    listed.len()
                } else {
                    offset as usize
                };
                let mut index: usize = start;
                while index < listed.len()
                    invariant
                        self.wf(),
                        self.contains(inode),
                        listed@ == self.children(inode),
                        start == self.listing_start(inode, offset as int),
                        start <= index <= listed.len(),
                        entries@.len() == index - start,
                        forall|i: int|
                            0 <= i < entries@.len() ==> (#[trigger] entries@[i])@ == self.entry(
                                inode,
                                start + i,
                            ),
                    decreases listed.len() - index,
                {
                    proof {
                        assert(self.valid_node(inode));
                        assert(self.contains(listed@[index as int]));
                    }
                    match table_get(&self.inode_table, listed[index]) {
                        Some(child) => {
                            entries.push(
                                DirEntry {
                                    inode: child.0.inode,
                                    offset: (index + 1) as i64,
                                    kind: child.0.filetype(),
                                    name: child.0.name.clone(),
                                },
                            );
                        },
                        None => {},
                    }
                    index += 1;
                }
                assert(entries@.map_values(|e: DirEntry| e@) =~= self.listing(
                    inode,
                    offset as int,
                ));
                Ok(entries)
            },
        }
    }

    pub fn readdir_reply(listed: usize, taken: usize) -> (answer: Result<(), FsError>)
        ensures
            answer == Self::listing_answer(listed as int, taken as int),
    {
        if taken < listed {
            Err(FsError::NoBuffers)
        } else {
            Ok(())
        }
    }

    /// Hands the entries to the buffer, one after the other, until one does
    /// not fit, and says how many the buffer took: all those before the first
    /// that it does not take, which the buffer then holds after what it held
    /// before. An entry whose name is too long for any buffer does not fit.
    fn emit(entries: &Vec<DirEntry>, reply: &mut fuser::ReplyDirectory) -> (taken: usize)
        ensures
            taken <= entries@.len(),
            taken == taken_from(
                reply_entries(*old(reply)),
                reply_capacity(*old(reply)),
                entries@.map_values(|e: DirEntry| e@),
                0,
            ),
            reply_entries(*final(reply)) == reply_entries(*old(reply)) + entries@.map_values(
                |e: DirEntry| e@,
            ).take(taken as int),
            reply_capacity(*final(reply)) == reply_capacity(*old(reply)),
    {
        let ghost held = reply_entries(*reply);
        let ghost capacity = reply_capacity(*reply);
        let ghost lines = entries@.map_values(|e: DirEntry| e@);
        let mut taken: usize = 0;
        assert(reply_entries(*reply) =~= held + lines.take(0));
        while taken < entries.len()
            invariant
                taken <= entries@.len(),
                lines == entries@.map_values(|e: DirEntry| e@),
                held == reply_entries(*old(reply)),
                capacity == reply_capacity(*old(reply)),
                reply_capacity(*reply) == capacity,
                reply_entries(*reply) == held + lines.take(taken as int),
                taken_from(held, capacity, lines, 0) == taken_from(
                    reply_entries(*reply),
                    capacity,
                    lines,
                    taken as int,
                ),
            decreases entries.len() - taken,
        {
            let entry = &entries[taken];
            assert(lines[taken as int] == entry@);
            if entry.name.as_str().len() > 0xffff_ffff {
                return taken;
            }
            if reply_add(reply, entry) {
                return taken;
            }
            assert(reply_entries(*reply) =~= held + lines.take(taken + 1));
            taken += 1;
        }
        taken
    }

    /// Lists the directory `inode` from the cursor `offset` on into the
    /// caller's buffer. The listing stops at the first entry that the buffer
    /// does not take: what the buffer then holds more than before are the
    /// entries up to that one, and the answer says that not all fitted.
    pub fn readdir(&self, inode: Inode, offset: i64, reply: &mut fuser::ReplyDirectory) -> (answer:
        Result<(), FsError>)
        requires
            self.wf(),
        ensures
            !self.contains(inode) ==> answer == Err::<(), FsError>(FsError::NotFound)
                && reply_entries(*final(reply)) == reply_entries(*old(reply)),
            self.contains(inode) ==> ({
                let whole = self.listing(inode, offset as int);
                let taken = taken_from(
                    reply_entries(*old(reply)),
                    reply_capacity(*old(reply)),
                    whole,
                    0,
                );
                &&& 0 <= taken <= whole.len()
                &&& reply_entries(*final(reply)) == reply_entries(*old(reply)) + whole.take(taken)
                &&& answer == Self::listing_answer(whole.len() as int, taken)
            }),
            reply_capacity(*final(reply)) == reply_capacity(*old(reply)),
    {
        match self.list_directory(inode, offset) {
            Ok(entries) => {
                let taken = Self::emit(&entries, reply);
                Self::readdir_reply(entries.len(), taken)
            },
            Err(error) => Err(error),
        }
    }

    /// Reads up to `size` bytes at `offset` from the content of the node
    /// `inode`, given what the node's description command produced.
    pub fn read(
        &self,
        inode: Inode,
        offset: i64,
        size: u32,
        description: Option<CommandOutput>,
    ) -> (reply: Result<Vec<u8>, FsError>)
        ensures
            !self.contains(inode) ==> reply == Err::<Vec<u8>, FsError>(FsError::NotFound),
            self.contains(inode) ==> reply is Ok && reply->Ok_0@ == read_window(
                self.file(inode).content(description),
                offset,
                size,
            ),
    {
        match self.get_file_by_inode(inode) {
            None => Err(FsError::NotFound),
            Some(file) => {
                let content = file.get_desc(description);
                let mut bytes: Vec<u8> = Vec::new();
                if offset < 0 || offset as u64 >= content.len() as u64 {
                    return Ok(bytes);
                }
                let start: usize = offset as usize;
                let remaining: usize = content.len() - start;
                let read_size: usize = if size as u64 >= remaining as u64 {
                    remaining
                } else {
                    size as usize
                };
                let mut i: usize = 0;
                while i < read_size
                    invariant
                        i <= read_size,
                        start + read_size <= content.len(),
                        bytes@ == content@.subrange(start as int, start + i),
                    decreases read_size - i,
                {
                    bytes.push(content[start + i]);
                    i += 1;
                    assert(bytes@ =~= content@.subrange(start as int, start + i));
                }
                Ok(bytes)
            },
        }
    }
}

} // verus!
