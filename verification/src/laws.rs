//! What holds of the filesystem across its operations.

use crate::filesystem::{
    distinct_names, listed_nodes, read_window, DirEntryView, K8sFS, NamespaceListing,
    CONTEXT_INODE,
};
use crate::k8s_resource::{definition_suffix, CommandOutput, FileType, Inode, ResourceType};
use vstd::prelude::*;

verus! {

/// Whether `inode` is what an allocation hands out in `pre`, leaving `post`.
pub open spec fn allocates(pre: K8sFS, post: K8sFS, inode: Inode) -> bool {
    inode == pre.next_id() && post.next_id() == inode + 1
}

/// Identifiers are handed out in strictly increasing order, so no two of
/// them are equal: whatever the filesystem went through between two
/// allocations, as long as its allocator never went back, the later
/// identifier is the greater one.
pub proof fn lemma_identifiers_never_repeat(
    pre: K8sFS,
    post: K8sFS,
    first: Inode,
    later_pre: K8sFS,
    later_post: K8sFS,
    second: Inode,
)
    requires
        allocates(pre, post, first),
        post.next_id() <= later_pre.next_id(),
        allocates(later_pre, later_post, second),
    ensures
        first < second,
{
}

/// No operation moves the allocator back: building a directory moves it on
/// by two, removing a namespace and a refused change leave it where it was,
/// and building the tree from a listing starts at the first identifier after
/// the two fixed ones.
pub proof fn lemma_allocator_never_goes_back(
    pre: K8sFS,
    post: K8sFS,
    parent: Inode,
    resource_type: ResourceType,
    name: Seq<char>,
    context: Seq<char>,
    namespace: Seq<char>,
    root: Inode,
    listing: Seq<NamespaceListing>,
)
    ensures
        K8sFS::grown(pre, post, parent, resource_type, name, context, namespace)
            ==> pre.next_id() + 2 == post.next_id(),
        K8sFS::pruned(pre, post, root) ==> pre.next_id() == post.next_id(),
        K8sFS::same_tree(pre, post) ==> pre.next_id() == post.next_id(),
        pre.fresh() && post.mirrors(context, listing) ==> pre.next_id() <= post.next_id(),
{
}

/// An identifier that has not been handed out yet names no node, neither
/// before nor after a namespace is removed: identifiers of removed nodes stay
/// unused.
pub proof fn lemma_unallocated_identifier_unused(fs: K8sFS, inode: Inode)
    requires
        fs.wf(),
        inode >= fs.next_id(),
    ensures
        !fs.contains(inode),
{
    if fs.contains(inode) {
        assert(fs.valid_node(inode));
    }
}

/// The identifiers of a removed namespace and of its definition file name no
/// node afterwards, and the allocator has not moved, so they are never handed
/// out again.
pub proof fn lemma_removed_identifiers_stay_invalid(pre: K8sFS, post: K8sFS, root: Inode)
    requires
        pre.wf(),
        pre.contains(root),
        pre.file(root).resource_type == ResourceType::Namespace,
        K8sFS::pruned(pre, post, root),
    ensures
        !post.contains(root),
        !post.contains((root + 1) as Inode),
        post.next_id() == pre.next_id(),
        root < post.next_id(),
        root + 1 < post.next_id(),
{
    assert(pre.valid_node(root));
    assert(pre.in_subtree(root, root));
    assert(pre.in_subtree(root, (root + 1) as Inode));
    assert(pre.contains(pre.children(root)[0]));
    assert(pre.valid_node((root + 1) as Inode));
}

proof fn lemma_prefix_len(keys: Set<Inode>, bound: Inode)
    requires
        forall|k: Inode| keys.contains(k) <==> k < bound,
    ensures
        keys.finite(),
        keys.len() == bound,
    decreases bound,
{
    if bound == 0 {
        assert(keys =~= Set::<Inode>::empty());
    } else {
        let last = (bound - 1) as Inode;
        let rest = keys.remove(last);
        lemma_prefix_len(rest, last);
        assert(keys =~= rest.insert(last));
    }
}

/// A tree built from a listing has exactly two nodes, the root and the
/// context, and two more for every namespace and for every pod of the
/// listing. Every namespace lists exactly its definition file and then its
/// pods.
pub proof fn lemma_initial_tree(fs: K8sFS, context: Seq<char>, listing: Seq<NamespaceListing>)
    requires
        fs.mirrors(context, listing),
    ensures
        fs.table().dom().finite(),
        fs.table().dom().len() == 2 + listed_nodes(listing, listing.len() as int),
        fs.children(CONTEXT_INODE).len() == listing.len(),
        forall|index: int|
            #![trigger fs.children(CONTEXT_INODE)[index]]
            0 <= index < listing.len() ==> {
                let namespace = fs.children(CONTEXT_INODE)[index];
                let listed = fs.children(namespace);
                &&& fs.file(namespace).resource_type == ResourceType::Namespace
                &&& fs.file(namespace).name@ == listing[index].name@
                &&& listed.len() == 1 + listing[index].pods@.len()
                &&& fs.file(listed[0]).resource_type == ResourceType::Definition
                &&& fs.file(listed[0]).name@ == listing[index].name@ + definition_suffix()
                &&& forall|at: int|
                    #![trigger listed[1 + at]]
                    0 <= at < listing[index].pods@.len() ==> {
                        &&& fs.file(listed[1 + at]).resource_type == ResourceType::Pod
                        &&& fs.file(listed[1 + at]).name@ == listing[index].pods@[at]@
                        &&& fs.children(listed[1 + at]).len() == 1
                        &&& fs.file(fs.children(listed[1 + at])[0]).resource_type
                            == ResourceType::Definition
                        &&& fs.file(fs.children(listed[1 + at])[0]).name@
                            == listing[index].pods@[at]@ + definition_suffix()
                    }
            },
{
    assert forall|k: Inode| fs.table().dom().contains(k) <==> k < fs.next_id() by {
        assert(fs.contains(k) <==> k < fs.next_id());
    }
    lemma_prefix_len(fs.table().dom(), fs.next_id());
    assert forall|index: int|
        #![trigger fs.children(CONTEXT_INODE)[index]]
        0 <= index < listing.len() implies {
        let namespace = fs.children(CONTEXT_INODE)[index];
        let listed = fs.children(namespace);
        &&& fs.file(namespace).resource_type == ResourceType::Namespace
        &&& fs.file(namespace).name@ == listing[index].name@
        &&& listed.len() == 1 + listing[index].pods@.len()
        &&& fs.file(listed[0]).resource_type == ResourceType::Definition
        &&& fs.file(listed[0]).name@ == listing[index].name@ + definition_suffix()
        &&& forall|at: int|
            #![trigger listed[1 + at]]
            0 <= at < listing[index].pods@.len() ==> {
                &&& fs.file(listed[1 + at]).resource_type == ResourceType::Pod
                &&& fs.file(listed[1 + at]).name@ == listing[index].pods@[at]@
                &&& fs.children(listed[1 + at]).len() == 1
                &&& fs.file(fs.children(listed[1 + at])[0]).resource_type
                    == ResourceType::Definition
                &&& fs.file(fs.children(listed[1 + at])[0]).name@ == listing[index].pods@[at]@
                    + definition_suffix()
            }
    } by {
        let namespace = fs.children(CONTEXT_INODE)[index];
        let listed = fs.children(namespace);
        assert(fs.mirrors_namespace(context, listing, index, namespace));
        assert(fs.valid_node(namespace));
        assert forall|at: int|
            #![trigger listed[1 + at]]
            0 <= at < listing[index].pods@.len() implies {
            &&& fs.file(listed[1 + at]).resource_type == ResourceType::Pod
            &&& fs.file(listed[1 + at]).name@ == listing[index].pods@[at]@
            &&& fs.children(listed[1 + at]).len() == 1
            &&& fs.file(fs.children(listed[1 + at])[0]).resource_type
                == ResourceType::Definition
            &&& fs.file(fs.children(listed[1 + at])[0]).name@ == listing[index].pods@[at]@
                + definition_suffix()
        } by {
            let pod = listed[1 + at];
            assert(fs.mirrors_pod(context, listing, index, at, namespace, pod));
            assert(fs.valid_node(pod));
        }
    }
}

/// The cursor at which a listing resumes after its first `taken` entries:
/// the cursor of the last entry taken, or the cursor the listing started at
/// when none was.
pub open spec fn resume_cursor(entries: Seq<DirEntryView>, offset: int, taken: int) -> int {
    if taken == 0 {
        offset
    } else {
        entries[taken - 1].offset as int
    }
}

/// A listing that stops after any number of entries and is resumed at the
/// cursor of the last entry it gave continues with exactly the entries that
/// were left: the pieces, put together, are the unbroken listing, wherever
/// the breaks fall.
pub proof fn lemma_listing_resumes(fs: K8sFS, inode: Inode, offset: int, taken: int)
    requires
        fs.wf(),
        fs.contains(inode),
        0 <= taken <= fs.listing(inode, offset).len(),
    ensures
        fs.listing(inode, offset).take(taken) + fs.listing(
            inode,
            resume_cursor(fs.listing(inode, offset), offset, taken),
        ) == fs.listing(inode, offset),
{
    assert(fs.valid_node(inode));
    let whole = fs.listing(inode, offset);
    let rest = fs.listing(inode, resume_cursor(whole, offset, taken));
    assert(whole.take(taken) + rest =~= whole);
}

/// What a caller has after listing the directory `inode` from the cursor
/// `offset` in several calls: its buffer took only the first `takes[0]`
/// entries of the first call, the first `takes[1]` of the call resumed after
/// those, and so on, and everything of the last call.
pub open spec fn listed_in_parts(fs: K8sFS, inode: Inode, offset: int, takes: Seq<nat>) -> Seq<
    DirEntryView,
>
    decreases takes.len(),
{
    let part = fs.listing(inode, offset);
    if takes.len() == 0 {
        part
    } else {
        let taken = if takes[0] <= part.len() {
            takes[0] as int
        } else {
            part.len() as int
        };
        part.take(taken) + listed_in_parts(
            fs,
            inode,
            resume_cursor(part, offset, taken),
            takes.drop_first(),
        )
    }
}

/// However often a listing is broken off and resumed, and wherever, the
/// entries of all the calls together are those of one unbroken listing, in
/// the same order: none is left out and none comes twice.
pub proof fn lemma_listing_in_parts(fs: K8sFS, inode: Inode, offset: int, takes: Seq<nat>)
    requires
        fs.wf(),
        fs.contains(inode),
    ensures
        listed_in_parts(fs, inode, offset, takes) == fs.listing(inode, offset),
    decreases takes.len(),
{
    if takes.len() > 0 {
        let part = fs.listing(inode, offset);
        let taken = if takes[0] <= part.len() {
            takes[0] as int
        } else {
            part.len() as int
        };
        lemma_listing_in_parts(fs, inode, resume_cursor(part, offset, taken), takes.drop_first());
        lemma_listing_resumes(fs, inode, offset, taken);
    }
}

/// A full listing names every listed node exactly once: no identifier
/// appears twice, and every entry carries the identifier, the kind and the
/// name of the node at its place.
pub proof fn lemma_listing_complete(fs: K8sFS, inode: Inode)
    requires
        fs.wf(),
        fs.contains(inode),
    ensures
        fs.listing(inode, 0).len() == fs.children(inode).len(),
        forall|i: int|
            0 <= i < fs.children(inode).len() ==> {
                &&& (#[trigger] fs.listing(inode, 0)[i]).inode == fs.children(inode)[i]
                &&& fs.listing(inode, 0)[i].name == fs.file(fs.children(inode)[i]).name@
                &&& fs.listing(inode, 0)[i].kind == fs.file(fs.children(inode)[i]).filetype()
            },
        forall|i: int, j: int|
            0 <= i < j < fs.children(inode).len() ==> (#[trigger] fs.listing(inode, 0)[i]).inode
                != (#[trigger] fs.listing(inode, 0)[j]).inode,
{
    assert(fs.valid_node(inode));
    assert forall|i: int| 0 <= i < fs.children(inode).len() implies (#[trigger] fs.listing(
        inode,
        0,
    )[i]).inode == fs.children(inode)[i] by {
        assert(fs.contains(fs.children(inode)[i]));
        assert(fs.valid_node(fs.children(inode)[i]));
    }
}

/// A name that resolves in a directory resolves to a node that exists under
/// the identifier reported for it, so that attributes can be asked for under
/// that identifier; they are the ones the entry gave, with the node's own
/// identifier and kind; and the node has the name that was asked for.
pub proof fn lemma_lookup_then_getattr(
    fs: K8sFS,
    parent: Inode,
    name: Seq<char>,
    description: Option<CommandOutput>,
)
    requires
        fs.wf(),
        fs.child_named(parent, name) is Some,
    ensures
        ({
            let found = fs.child_named(parent, name)->0;
            let entry = fs.entry_reply(found, description);
            &&& entry.attr.ino == found
            &&& fs.contains(entry.attr.ino)
            &&& fs.file(entry.attr.ino).name@ == name
            &&& fs.file(entry.attr.ino).attributes(description) == entry.attr
            &&& entry.attr.kind == fs.file(entry.attr.ino).filetype()
            &&& (entry.attr.kind == FileType::RegularFile <==> fs.file(
                entry.attr.ino,
            ).resource_type == ResourceType::Definition)
        }),
{
    fs.lemma_child_named(parent, name);
}

/// A read from the start that asks for at least as many bytes as the content
/// has returns the whole content; a read at the end of the content or beyond
/// it returns nothing.
pub proof fn lemma_read_window(content: Seq<u8>, offset: i64, size: u32)
    ensures
        size >= content.len() ==> read_window(content, 0, size) == content,
        offset >= content.len() ==> read_window(content, offset, size) == Seq::<u8>::empty(),
        read_window(content, offset, size).len() <= size,
        0 <= offset <= content.len() ==> read_window(content, offset, size).len() <= content.len()
            - offset,
{
    if size >= content.len() {
        assert(read_window(content, 0, size) =~= content);
    }
}

/// A namespace that was created is listed last in the context, as a
/// directory under its name, and lists its own definition file; both nodes
/// exist; and the name resolves in the context unless an older entry of the
/// context already had it.
pub proof fn lemma_created_namespace_visible(
    pre: K8sFS,
    post: K8sFS,
    name: Seq<char>,
    context: Seq<char>,
)
    requires
        pre.wf(),
        pre.contains(CONTEXT_INODE),
        pre.next_id() + 2 <= crate::filesystem::MAX_INODE,
        K8sFS::grown(pre, post, CONTEXT_INODE, ResourceType::Namespace, name, context, name),
    ensures
        ({
            let inode = pre.next_id();
            let definition = (inode + 1) as Inode;
            &&& post.contains(inode)
            &&& post.contains(definition)
            &&& post.listing(CONTEXT_INODE, 0).len() == pre.listing(CONTEXT_INODE, 0).len() + 1
            &&& post.listing(CONTEXT_INODE, 0).last() == DirEntryView {
                inode,
                offset: post.children(CONTEXT_INODE).len() as i64,
                kind: FileType::Directory,
                name,
            }
            &&& post.listing(CONTEXT_INODE, 0).drop_last() == pre.listing(CONTEXT_INODE, 0)
            &&& post.listing(inode, 0) == seq![
                DirEntryView {
                    inode: definition,
                    offset: 1,
                    kind: FileType::RegularFile,
                    name: name + definition_suffix(),
                },
            ]
            &&& (pre.child_named(CONTEXT_INODE, name) is None ==> post.child_named(
                CONTEXT_INODE,
                name,
            ) == Some(inode))
        }),
{
    let inode = pre.next_id();
    let definition = (inode + 1) as Inode;
    assert(pre.valid_node(CONTEXT_INODE));
    assert(post.table().dom().contains(inode));
    assert(post.table().dom().contains(definition));
    assert(post.listing(CONTEXT_INODE, 0).drop_last() =~= pre.listing(CONTEXT_INODE, 0)) by {
        assert forall|i: int| 0 <= i < pre.children(CONTEXT_INODE).len() implies post.entry(
            CONTEXT_INODE,
            i,
        ) == pre.entry(CONTEXT_INODE, i) by {
            let child = pre.children(CONTEXT_INODE)[i];
            assert(pre.contains(child));
            assert(pre.valid_node(child));
        }
    }
    assert(post.listing(inode, 0) =~= seq![
        DirEntryView {
            inode: definition,
            offset: 1,
            kind: FileType::RegularFile,
            name: name + definition_suffix(),
        },
    ]);
    if pre.child_named(CONTEXT_INODE, name) is None {
        lemma_resolves_to_new(pre, post, name, 0);
    }
}

proof fn lemma_resolves_to_new(pre: K8sFS, post: K8sFS, name: Seq<char>, start: int)
    requires
        pre.wf(),
        pre.contains(CONTEXT_INODE),
        0 <= start <= pre.children(CONTEXT_INODE).len(),
        pre.child_from(CONTEXT_INODE, name, start) is None,
        post.contains(pre.next_id()),
        post.file(pre.next_id()).name@ == name,
        post.children(CONTEXT_INODE) == pre.children(CONTEXT_INODE).push(pre.next_id()),
        forall|k: Inode| #[trigger]
            pre.contains(k) && k != CONTEXT_INODE ==> post.contains(k) && post.table()[k]
                == pre.table()[k],
    ensures
        post.child_from(CONTEXT_INODE, name, start) == Some(pre.next_id()),
    decreases pre.children(CONTEXT_INODE).len() - start,
{
    assert(pre.valid_node(CONTEXT_INODE));
    if start < pre.children(CONTEXT_INODE).len() {
        let child = pre.children(CONTEXT_INODE)[start];
        assert(pre.contains(child));
        assert(pre.valid_node(child));
        lemma_resolves_to_new(pre, post, name, start + 1);
    }
}

/// After a namespace was removed, neither it nor its definition file is a
/// node, the context lists one entry less and does not list the namespace,
/// and every other entry of the context is still listed, in the same order.
pub proof fn lemma_removed_namespace_gone(pre: K8sFS, post: K8sFS, root: Inode)
    requires
        pre.wf(),
        pre.contains(root),
        pre.file(root).resource_type == ResourceType::Namespace,
        K8sFS::pruned(pre, post, root),
    ensures
        !post.contains(root),
        !post.contains((root + 1) as Inode),
        !post.children(CONTEXT_INODE).contains(root),
        post.children(CONTEXT_INODE).len() == pre.children(CONTEXT_INODE).len() - 1,
        forall|other: Inode|
            pre.children(CONTEXT_INODE).contains(other) && other != root
                ==> #[trigger] post.children(CONTEXT_INODE).contains(other) && post.contains(
                other,
            ),
        forall|k: Inode| #[trigger] post.contains(k) ==> pre.contains(k),
{
    let listed = pre.children(CONTEXT_INODE);
    let gone = listed.index_of(root);
    assert(pre.valid_node(root));
    assert(pre.contains(CONTEXT_INODE));
    assert(pre.valid_node(CONTEXT_INODE));
    assert(0 <= gone < listed.len() && listed[gone] == root);
    assert(pre.in_subtree(root, root));
    assert(pre.in_subtree(root, (root + 1) as Inode));
    let after = post.children(CONTEXT_INODE);
    if after.contains(root) {
        let at = after.index_of(root);
        assert(0 <= at < after.len() && after[at] == root);
        let from = if at >= gone {
            at + 1
        } else {
            at
        };
        assert(listed[from] == root);
        if from < gone {
            assert(listed[from] != listed[gone]);
        } else {
            assert(listed[gone] != listed[from]);
        }
    }
    K8sFS::lemma_pruned_valid(pre, post, root);
    assert forall|other: Inode| listed.contains(other) && other != root implies #[trigger]
        after.contains(other) && post.contains(other) by {
        let at = listed.index_of(other);
        assert(0 <= at < listed.len() && listed[at] == other);
        let to = if at > gone {
            at - 1
        } else {
            at
        };
        assert(after[to] == other);
        assert(post.valid_node(CONTEXT_INODE));
    }
}

/// A tree built from a listing in which every entry of a directory has a
/// name of its own lists no two nodes of the same name in any directory.
pub proof fn lemma_initial_names_unique(
    fs: K8sFS,
    context: Seq<char>,
    listing: Seq<NamespaceListing>,
)
    requires
        fs.mirrors(context, listing),
        distinct_names(listing),
    ensures
        fs.names_unique(),
{
    assert forall|parent: Inode, i: int, j: int|
        #![trigger fs.name_at(parent, i), fs.name_at(parent, j)]
        fs.contains(parent) && 0 <= i < j < fs.children(parent).len() implies fs.name_at(
        parent,
        i,
    ) != fs.name_at(parent, j) by {
        assert(fs.valid_node(parent));
        let listed = fs.children(parent);
        if parent == CONTEXT_INODE {
            assert(fs.mirrors_namespace(context, listing, i, listed[i]));
            assert(fs.mirrors_namespace(context, listing, j, listed[j]));
            assert(listing[i].name@ != listing[j].name@);
        } else if fs.file(parent).resource_type == ResourceType::Namespace {
            let index = fs.children(CONTEXT_INODE).index_of(parent);
            assert(fs.children(CONTEXT_INODE)[index] == parent);
            assert(fs.mirrors_namespace(context, listing, index, parent));
            assert(fs.mirrors_pod(context, listing, index, j - 1, parent, listed[1 + (j - 1)]));
            let second = listing[index].pods@[j - 1];
            if i == 0 {
                assert(second@ != listing[index].name@ + definition_suffix());
            } else {
                assert(fs.mirrors_pod(
                    context,
                    listing,
                    index,
                    i - 1,
                    parent,
                    listed[1 + (i - 1)],
                ));
                let first = listing[index].pods@[i - 1];
                assert(first@ != second@);
            }
        }
    }
}

proof fn lemma_unresolved(fs: K8sFS, parent: Inode, name: Seq<char>, start: int)
    requires
        fs.wf(),
        fs.contains(parent),
        0 <= start,
        fs.child_from(parent, name, start) is None,
    ensures
        forall|at: int| start <= at < fs.children(parent).len() ==> fs.name_at(parent, at) != name,
    decreases fs.children(parent).len() - start,
{
    if start < fs.children(parent).len() {
        assert(fs.valid_node(parent));
        assert(fs.contains(fs.children(parent)[start]));
        lemma_unresolved(fs, parent, name, start + 1);
    }
}

/// Creating a namespace whose name did not resolve in the context keeps
/// the names in every directory apart.
pub proof fn lemma_created_names_unique(
    pre: K8sFS,
    post: K8sFS,
    name: Seq<char>,
    context: Seq<char>,
)
    requires
        pre.wf(),
        pre.contains(CONTEXT_INODE),
        pre.next_id() + 2 <= crate::filesystem::MAX_INODE,
        pre.names_unique(),
        pre.child_named(CONTEXT_INODE, name) is None,
        K8sFS::grown(pre, post, CONTEXT_INODE, ResourceType::Namespace, name, context, name),
    ensures
        post.names_unique(),
{
    let inode = pre.next_id();
    let definition = (inode + 1) as Inode;
    lemma_unresolved(pre, CONTEXT_INODE, name, 0);
    assert forall|parent: Inode, i: int, j: int|
        #![trigger post.name_at(parent, i), post.name_at(parent, j)]
        post.contains(parent) && 0 <= i < j < post.children(parent).len() implies post.name_at(
        parent,
        i,
    ) != post.name_at(parent, j) by {
        if parent != inode && parent != definition {
            assert(pre.table().dom().contains(parent));
            assert(pre.contains(parent));
            assert(pre.valid_node(parent));
            let listed = pre.children(parent);
            if i < listed.len() {
                assert(pre.contains(listed[i]));
                assert(pre.valid_node(listed[i]));
                assert(post.name_at(parent, i) == pre.name_at(parent, i));
            }
            if j < listed.len() {
                assert(pre.contains(listed[j]));
                assert(pre.valid_node(listed[j]));
                assert(post.name_at(parent, j) == pre.name_at(parent, j));
                assert(pre.name_at(parent, i) != pre.name_at(parent, j));
            }
        }
    }
}

/// Removing a namespace keeps the names in every directory apart.
pub proof fn lemma_removed_names_unique(pre: K8sFS, post: K8sFS, root: Inode)
    requires
        pre.wf(),
        pre.contains(root),
        pre.file(root).resource_type == ResourceType::Namespace,
        pre.names_unique(),
        K8sFS::pruned(pre, post, root),
    ensures
        post.names_unique(),
{
    K8sFS::lemma_pruned_valid(pre, post, root);
    let gone = pre.children(CONTEXT_INODE).index_of(root);
    assert(pre.valid_node(root));
    assert(pre.valid_node(CONTEXT_INODE));
    assert(0 <= gone < pre.children(CONTEXT_INODE).len() && pre.children(CONTEXT_INODE)[gone]
        == root);
    assert forall|parent: Inode, i: int, j: int|
        #![trigger post.name_at(parent, i), post.name_at(parent, j)]
        post.contains(parent) && 0 <= i < j < post.children(parent).len() implies post.name_at(
        parent,
        i,
    ) != post.name_at(parent, j) by {
        assert(pre.contains(parent));
        assert(pre.valid_node(parent));
        assert(post.valid_node(parent));
        let first = post.children(parent)[i];
        let second = post.children(parent)[j];
        assert(post.contains(first) && post.contains(second));
        assert(pre.contains(first) && pre.contains(second));
        assert(pre.valid_node(first) && pre.valid_node(second));
        let from_i = if parent == CONTEXT_INODE && i >= gone {
            i + 1
        } else {
            i
        };
        let from_j = if parent == CONTEXT_INODE && j >= gone {
            j + 1
        } else {
            j
        };
        assert(pre.children(parent)[from_i] == first);
        assert(pre.children(parent)[from_j] == second);
        assert(pre.name_at(parent, from_i) != pre.name_at(parent, from_j));
    }
}

/// Where no directory lists two nodes of the same name, every listed node
/// is the one its name resolves to: what a listing shows, a lookup finds.
pub proof fn lemma_listed_name_resolves(fs: K8sFS, parent: Inode, at: int)
    requires
        fs.wf(),
        fs.names_unique(),
        fs.contains(parent),
        0 <= at < fs.children(parent).len(),
    ensures
        fs.child_named(parent, fs.name_at(parent, at)) == Some(fs.children(parent)[at]),
{
    lemma_resolves_from(fs, parent, at, 0);
}

proof fn lemma_resolves_from(fs: K8sFS, parent: Inode, at: int, start: int)
    requires
        fs.wf(),
        fs.names_unique(),
        fs.contains(parent),
        0 <= start <= at < fs.children(parent).len(),
    ensures
        fs.child_from(parent, fs.name_at(parent, at), start) == Some(fs.children(parent)[at]),
    decreases at - start,
{
    assert(fs.valid_node(parent));
    assert(fs.contains(fs.children(parent)[start]));
    if start < at {
        assert(fs.name_at(parent, start) != fs.name_at(parent, at));
        lemma_resolves_from(fs, parent, at, start + 1);
    }
}

} // verus!
