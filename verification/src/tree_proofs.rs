//! Why the operations keep the tree valid.

use crate::filesystem::{
    listed_nodes, namespace_id, K8sFS, NamespaceListing, CONTEXT_INODE, MAX_INODE, ROOT_INODE,
};
use crate::k8s_resource::{Inode, ResourceType};
use vstd::prelude::*;

verus! {

/// The identifiers that a listing takes grow with the number of namespaces
/// counted.
pub(crate) proof fn lemma_listed_nodes_grow(listing: Seq<NamespaceListing>, low: int, high: int)
    requires
        0 <= low <= high,
    ensures
        0 <= listed_nodes(listing, low) <= listed_nodes(listing, high),
    decreases high,
{
    if low < high {
        lemma_listed_nodes_grow(listing, low, high - 1);
    } else if low > 0 {
        lemma_listed_nodes_grow(listing, low - 1, low - 1);
    }
}

impl K8sFS {
    /// A name that resolves in a valid tree resolves to a node that exists,
    /// is listed in the directory, and has that name.
    pub proof fn lemma_child_named(&self, parent: Inode, name: Seq<char>)
        requires
            self.wf(),
            self.child_named(parent, name) is Some,
        ensures
            self.contains(parent),
            self.contains(self.child_named(parent, name)->0),
            self.children(parent).contains(self.child_named(parent, name)->0),
            self.file(self.child_named(parent, name)->0).name@ == name,
            self.file(self.child_named(parent, name)->0).inode == self.child_named(
                parent,
                name,
            )->0,
    {
        self.lemma_child_from(parent, name, 0);
    }

    pub(crate) proof fn lemma_child_from(&self, parent: Inode, name: Seq<char>, start: int)
        requires
            self.wf(),
            self.contains(parent),
            self.child_from(parent, name, start) is Some,
        ensures
            self.contains(self.child_from(parent, name, start)->0),
            self.children(parent).contains(self.child_from(parent, name, start)->0),
            self.file(self.child_from(parent, name, start)->0).name@ == name,
            self.file(self.child_from(parent, name, start)->0).inode == self.child_from(
                parent,
                name,
                start,
            )->0,
        decreases self.children(parent).len() - start,
    {
        let listed = self.children(parent);
        if 0 <= start < listed.len() {
            if self.contains(listed[start]) && self.file(listed[start]).name@ == name {
                assert(self.valid_node(listed[start]));
            } else {
                self.lemma_child_from(parent, name, start + 1);
            }
        }
    }

    /// Growing a valid tree by a namespace under the context, or by a pod
    /// under a namespace, gives a valid tree.
    pub(crate) proof fn lemma_grown_wf(
        pre: K8sFS,
        post: K8sFS,
        parent: Inode,
        resource_type: ResourceType,
        name: Seq<char>,
        context: Seq<char>,
        namespace: Seq<char>,
    )
        requires
            pre.wf(),
            pre.contains(parent),
            pre.next_id() + 2 <= MAX_INODE,
            Self::grown(pre, post, parent, resource_type, name, context, namespace),
            (parent == CONTEXT_INODE && resource_type == ResourceType::Namespace) || (pre.file(
                parent,
            ).resource_type == ResourceType::Namespace && resource_type == ResourceType::Pod),
        ensures
            post.wf(),
    {
        let inode = pre.next_id();
        let definition = (inode + 1) as Inode;
        assert(pre.valid_node(parent));
        assert(!pre.contains(inode)) by {
            if pre.contains(inode) {
                assert(pre.valid_node(inode));
            }
        }
        assert(!pre.contains(definition)) by {
            if pre.contains(definition) {
                assert(pre.valid_node(definition));
            }
        }
        assert(post.children(parent)[pre.children(parent).len() as int] == inode);
        assert forall|k: Inode| #[trigger] post.contains(k) implies post.valid_node(k) by {
            if k == inode {
                assert(post.valid_node(k));
            } else if k == definition {
                assert(post.valid_node(k));
            } else if k == parent {
                assert(post.valid_node(k));
            } else {
                assert(pre.contains(k));
                assert(pre.valid_node(k));
                assert(post.table()[k] == pre.table()[k]);
                let holder = if pre.file(k).resource_type == ResourceType::Namespace {
                    CONTEXT_INODE
                } else {
                    pre.file(k).parent
                };
                if pre.file(k).deletable() {
                    let at = pre.children(holder).index_of(k);
                    assert(post.children(holder)[at] == k);
                }
                assert(post.valid_node(k));
            }
        }
    }

    /// A namespace that the tree mirrors is still mirrored after the tree
    /// has grown at another place.
    pub(crate) proof fn lemma_mirror_kept(
        pre: K8sFS,
        post: K8sFS,
        context: Seq<char>,
        listing: Seq<NamespaceListing>,
        index: int,
        namespace: Inode,
        parent: Inode,
    )
        requires
            pre.wf(),
            pre.contains(parent),
            pre.mirrors_namespace(context, listing, index, namespace),
            parent == CONTEXT_INODE || parent >= namespace_id(listing, index + 1),
            index >= 0,
            forall|k: Inode| #[trigger]
                pre.contains(k) && k != parent ==> post.contains(k) && post.table()[k]
                    == pre.table()[k],
        ensures
            post.mirrors_namespace(context, listing, index, namespace),
    {
        assert(pre.valid_node(namespace));
        assert(namespace_id(listing, index + 1) == namespace + 2 + 2
            * listing[index].pods@.len());
        assert forall|at: int| 0 <= at < listing[index].pods@.len() implies post.mirrors_pod(
            context,
            listing,
            index,
            at,
            namespace,
            #[trigger] post.children(namespace)[1 + at],
        ) by {
            let pod = pre.children(namespace)[1 + at];
            assert(pre.mirrors_pod(context, listing, index, at, namespace, pod));
            assert(pre.contains(pod));
        }
    }

    /// In a list without repetition, an element is found where it stands.
    pub(crate) proof fn lemma_listed_at(&self, inode: Inode, at: int)
        requires
            self.wf(),
            self.contains(inode),
            0 <= at < self.children(inode).len(),
        ensures
            self.children(inode).index_of(self.children(inode)[at]) == at,
    {
        let listed = self.children(inode);
        assert(self.valid_node(inode));
        let found = listed.index_of(listed[at]);
        assert(0 <= found < listed.len() && listed[found] == listed[at]);
        if found < at {
            assert(listed[found] != listed[at]);
        } else if at < found {
            assert(listed[at] != listed[found]);
        }
    }

    /// A pod stands in the list of its namespace, after the definition file.
    pub(crate) proof fn lemma_pod_listed(&self, root: Inode, pod: Inode)
        requires
            self.wf(),
            self.contains(pod),
            self.is_pod_of(root, pod),
        ensures
            self.contains(root),
            self.file(root).resource_type == ResourceType::Namespace,
            1 <= self.children(root).index_of(pod) < self.children(root).len(),
            self.children(root)[self.children(root).index_of(pod)] == pod,
    {
        assert(self.valid_node(pod));
        assert(self.valid_node(root));
        let listed = self.children(root);
        let at = listed.index_of(pod);
        assert(0 <= at < listed.len() && listed[at] == pod);
        assert(self.contains(listed[0]));
        assert(self.valid_node(listed[0]));
    }

    /// Removing a namespace from a valid tree gives a valid tree.
    pub(crate) proof fn lemma_pruned_wf(pre: K8sFS, post: K8sFS, root: Inode)
        requires
            pre.wf(),
            pre.contains(root),
            pre.file(root).resource_type == ResourceType::Namespace,
            Self::pruned(pre, post, root),
        ensures
            post.wf(),
    {
        let listed = pre.children(CONTEXT_INODE);
        let gone = listed.index_of(root);
        assert(pre.valid_node(root));
        assert(pre.contains(CONTEXT_INODE));
        assert(pre.valid_node(CONTEXT_INODE));
        assert(pre.contains(ROOT_INODE));
        assert(pre.valid_node(ROOT_INODE));
        assert(0 <= gone < listed.len() && listed[gone] == root);
        assert(pre.contains((root + 1) as Inode)) by {
            assert(pre.contains(pre.children(root)[0]));
        }
        assert(pre.valid_node((root + 1) as Inode));
        assert(!pre.in_subtree(root, CONTEXT_INODE));
        assert(!pre.in_subtree(root, ROOT_INODE));
        assert forall|k: Inode| #[trigger] post.contains(k) implies post.valid_node(k) by {
            assert(pre.contains(k));
            assert(pre.valid_node(k));
            let node = pre.file(k);
            let before = pre.children(k);
            let after = post.children(k);
            if k >= 1 && pre.contains((k - 1) as Inode) {
                assert(pre.valid_node((k - 1) as Inode));
            }
            assert forall|i: int| 0 <= i < after.len() implies post.contains(
                #[trigger] after[i],
            ) by {
                let child = after[i];
                let from = if k == CONTEXT_INODE && i >= gone {
                    i + 1
                } else {
                    i
                };
                assert(before[from] == child);
                assert(pre.contains(child));
                assert(pre.valid_node(child));
                if child >= 1 && pre.contains((child - 1) as Inode) {
                    assert(pre.valid_node((child - 1) as Inode));
                }
                if k == CONTEXT_INODE {
                    if from < gone {
                        assert(before[from] != before[gone]);
                    } else {
                        assert(before[gone] != before[from]);
                    }
                }
                assert(!pre.in_subtree(root, child));
            }
            assert forall|i: int, j: int| 0 <= i < j < after.len() implies after[i]
                != after[j] by {
                if k == CONTEXT_INODE {
                    let from_i = if i >= gone {
                        i + 1
                    } else {
                        i
                    };
                    let from_j = if j >= gone {
                        j + 1
                    } else {
                        j
                    };
                    assert(before[from_i] != before[from_j]);
                }
            }
            if k == CONTEXT_INODE {
                assert forall|i: int| 0 <= i < after.len() implies post.file(
                    #[trigger] after[i],
                ).resource_type == ResourceType::Namespace && post.file(after[i]).parent
                    == CONTEXT_INODE by {
                    let from = if i >= gone {
                        i + 1
                    } else {
                        i
                    };
                    assert(before[from] == after[i]);
                    assert(post.contains(after[i]));
                }
                assert(post.contains(ROOT_INODE));
            } else if node.resource_type == ResourceType::Namespace {
                let at = listed.index_of(k);
                assert(0 <= at < listed.len() && listed[at] == k);
                let to = if at > gone {
                    at - 1
                } else {
                    at
                };
                assert(post.children(CONTEXT_INODE)[to] == k);
                assert(post.contains(before[0]));
                assert forall|i: int| 1 <= i < after.len() implies post.file(
                    #[trigger] after[i],
                ).resource_type == ResourceType::Pod && post.file(after[i]).parent == k by {
                    assert(post.contains(after[i]));
                }
            } else if node.resource_type == ResourceType::Pod {
                assert(pre.contains(node.parent));
                assert(pre.valid_node(node.parent));
                if node.parent >= 1 && pre.contains((node.parent - 1) as Inode) {
                    assert(pre.valid_node((node.parent - 1) as Inode));
                }
                assert(!pre.in_subtree(root, node.parent));
                assert(post.contains(node.parent));
                assert(post.contains(before[0]));
            } else if node.resource_type == ResourceType::Definition {
                let described = (k - 1) as Inode;
                if described >= 1 && pre.contains((described - 1) as Inode) {
                    assert(pre.valid_node((described - 1) as Inode));
                }
                assert(!pre.in_subtree(root, described));
                assert(post.contains(described));
            }
            assert(post.valid_node(k));
        }
    }

    /// Removing a namespace from a valid tree gives a valid tree, in which
    /// the context still exists.
    pub proof fn lemma_pruned_valid(pre: K8sFS, post: K8sFS, root: Inode)
        requires
            pre.wf(),
            pre.contains(root),
            pre.file(root).resource_type == ResourceType::Namespace,
            Self::pruned(pre, post, root),
        ensures
            post.wf(),
            post.contains(CONTEXT_INODE),
    {
        Self::lemma_pruned_wf(pre, post, root);
        assert(pre.valid_node(root));
        assert(pre.contains(CONTEXT_INODE));
        assert(pre.valid_node(CONTEXT_INODE));
        assert(pre.contains(ROOT_INODE));
        assert(pre.valid_node(ROOT_INODE));
        assert(pre.contains((root + 1) as Inode)) by {
            assert(pre.contains(pre.children(root)[0]));
        }
        assert(pre.valid_node((root + 1) as Inode));
        assert(!pre.in_subtree(root, CONTEXT_INODE));
    }
}

} // verus!
