use k8sfs::filesystem::{
    DirEntry, FsError, K8sFS, NamespaceListing, CONTEXT_INODE, MAX_INODE, ROOT_INODE, TTL_SECS,
};
use k8sfs::k8s_resource::{CommandOutput, FileType, ResourceType};

fn listing(entries: &[(&str, &[&str])]) -> Vec<NamespaceListing> {
    entries
        .iter()
        .map(|(name, pods)| NamespaceListing {
            name: name.to_string(),
            pods: pods.iter().map(|p| p.to_string()).collect(),
        })
        .collect()
}

fn sample() -> K8sFS {
    let mut fs = K8sFS::new();
    fs.initialize_inode_table("ctx", &listing(&[("default", &["nginx"]), ("kube-system", &[])]));
    fs
}

fn ran(success: bool, stdout: &[u8]) -> Option<CommandOutput> {
    Some(CommandOutput { success, stdout: stdout.to_vec() })
}

fn rows(entries: &[DirEntry]) -> Vec<(u64, i64, FileType, String)> {
    entries.iter().map(|e| (e.inode, e.offset, e.kind, e.name.clone())).collect()
}

fn node_count(fs: &K8sFS) -> usize {
    (0..fs.next_inode()).filter(|inode| fs.get_file_by_inode(*inode).is_some()).count()
}

#[test]
fn new_filesystem_is_empty() {
    let fs = K8sFS::new();
    assert_eq!(fs.next_inode(), 2);
    assert!(fs.get_file_by_inode(ROOT_INODE).is_none());
    assert!(fs.get_file_by_inode(CONTEXT_INODE).is_none());
    assert_eq!(fs.name(), "KubernetesFS");
    assert_eq!(TTL_SECS, 1);
    assert_eq!(MAX_INODE, i64::MAX as u64);
}

#[test]
fn lookup_in_an_empty_filesystem_finds_nothing() {
    let fs = K8sFS::new();
    assert_eq!(fs.lookup(CONTEXT_INODE, "default", &None).err(), Some(FsError::NotFound));
    assert!(fs.get_file_by_name("default", CONTEXT_INODE).is_none());
}

#[test]
fn initialization_numbers_nodes_in_order() {
    let fs = sample();
    assert_eq!(fs.next_inode(), 8);
    let names: Vec<String> =
        (0..8).map(|inode| fs.get_file_by_inode(inode).unwrap().name.clone()).collect();
    assert_eq!(
        names,
        vec![
            "root",
            "ctx",
            "default",
            "default_definition.yaml",
            "nginx",
            "nginx_definition.yaml",
            "kube-system",
            "kube-system_definition.yaml",
        ]
    );
    assert!(fs.get_file_by_inode(8).is_none());
    let kinds: Vec<ResourceType> =
        (0..8).map(|inode| fs.get_file_by_inode(inode).unwrap().resource_type).collect();
    assert_eq!(
        kinds,
        vec![
            ResourceType::Root,
            ResourceType::Context,
            ResourceType::Namespace,
            ResourceType::Definition,
            ResourceType::Pod,
            ResourceType::Definition,
            ResourceType::Namespace,
            ResourceType::Definition,
        ]
    );
    let parents: Vec<u64> =
        (0..8).map(|inode| fs.get_file_by_inode(inode).unwrap().parent).collect();
    assert_eq!(parents, vec![0, 0, 1, 1, 2, 2, 1, 1]);
}

#[test]
fn initialization_without_namespaces_gives_root_and_context() {
    let mut fs = K8sFS::new();
    fs.initialize_inode_table("ctx", &Vec::new());
    assert_eq!(fs.next_inode(), 2);
    assert_eq!(node_count(&fs), 2);
    assert_eq!(rows(&fs.list_directory(ROOT_INODE, 0).unwrap()), vec![(
        1,
        1,
        FileType::Directory,
        "ctx".to_string()
    )]);
    assert!(fs.list_directory(CONTEXT_INODE, 0).unwrap().is_empty());
}

#[test]
fn initialization_counts_two_nodes_per_namespace_and_pod() {
    let mut fs = K8sFS::new();
    fs.initialize_inode_table(
        "ctx",
        &listing(&[("a", &["p1", "p2", "p3"]), ("b", &[]), ("c", &["q"])]),
    );
    // 2 + (2 + 2*3) + (2 + 0) + (2 + 2*1)
    assert_eq!(node_count(&fs), 16);
    assert_eq!(fs.next_inode(), 16);
    let a = fs.get_file_by_name("a", CONTEXT_INODE).unwrap().inode;
    let in_a: Vec<String> = fs.list_directory(a, 0).unwrap().into_iter().map(|e| e.name).collect();
    assert_eq!(in_a, vec!["a_definition.yaml", "p1", "p2", "p3"]);
    let b = fs.get_file_by_name("b", CONTEXT_INODE).unwrap().inode;
    let in_b: Vec<String> = fs.list_directory(b, 0).unwrap().into_iter().map(|e| e.name).collect();
    assert_eq!(in_b, vec!["b_definition.yaml"]);
}

#[test]
fn scenario_two_namespaces_one_pod() {
    let fs = sample();
    assert_eq!(
        rows(&fs.list_directory(CONTEXT_INODE, 0).unwrap()),
        vec![
            (2, 1, FileType::Directory, "default".to_string()),
            (6, 2, FileType::Directory, "kube-system".to_string()),
        ]
    );
    let default = fs.get_file_by_name("default", CONTEXT_INODE).unwrap().inode;
    assert_eq!(
        rows(&fs.list_directory(default, 0).unwrap()),
        vec![
            (3, 1, FileType::RegularFile, "default_definition.yaml".to_string()),
            (4, 2, FileType::Directory, "nginx".to_string()),
        ]
    );
    let nginx = fs.get_file_by_name("nginx", default).unwrap().inode;
    assert_eq!(
        rows(&fs.list_directory(nginx, 0).unwrap()),
        vec![(5, 1, FileType::RegularFile, "nginx_definition.yaml".to_string())]
    );
    let system = fs.get_file_by_name("kube-system", CONTEXT_INODE).unwrap().inode;
    assert_eq!(
        rows(&fs.list_directory(system, 0).unwrap()),
        vec![(7, 1, FileType::RegularFile, "kube-system_definition.yaml".to_string())]
    );
}

#[test]
fn identifiers_count_up_and_are_not_reused() {
    let mut fs = sample();
    let first = fs.calculate_next_inode();
    let second = fs.calculate_next_inode();
    assert_eq!((first, second), (8, 9));
    assert_eq!(fs.rmdir(CONTEXT_INODE, "default", &ran(true, b"")), Ok(()));
    let entry = fs.mkdir(CONTEXT_INODE, "default", true).unwrap();
    assert_eq!(entry.attr.ino, 10);
    assert_eq!(fs.next_inode(), 12);
    assert!(fs.get_file_by_inode(2).is_none());
    assert!(fs.get_file_by_inode(3).is_none());
}

#[test]
fn listing_resumes_after_any_break() {
    let mut fs = K8sFS::new();
    fs.initialize_inode_table("ctx", &listing(&[("a", &["p1", "p2", "p3", "p4"])]));
    let a = fs.get_file_by_name("a", CONTEXT_INODE).unwrap().inode;
    let whole = rows(&fs.list_directory(a, 0).unwrap());
    assert_eq!(whole.len(), 5);
    for first in 0..=whole.len() {
        for second in 0..=(whole.len() - first) {
            let mut pieces = Vec::new();
            let mut cursor = 0;
            for taken in [first, second, usize::MAX] {
                let part = rows(&fs.list_directory(a, cursor).unwrap());
                let kept: Vec<_> = part.into_iter().take(taken).collect();
                if let Some(last) = kept.last() {
                    cursor = last.1;
                }
                pieces.extend(kept);
            }
            assert_eq!(pieces, whole);
        }
    }
}

#[test]
fn listing_cursor_is_the_position_after_the_entry() {
    let fs = sample();
    assert_eq!(
        rows(&fs.list_directory(2, 1).unwrap()),
        vec![(4, 2, FileType::Directory, "nginx".to_string())]
    );
    assert!(fs.list_directory(2, 2).unwrap().is_empty());
    assert!(fs.list_directory(2, 3).unwrap().is_empty());
    assert!(fs.list_directory(2, -1).unwrap().is_empty());
    assert!(fs.list_directory(2, i64::MAX).unwrap().is_empty());
}

#[test]
fn listing_an_unknown_directory_is_not_found() {
    let fs = sample();
    assert_eq!(fs.list_directory(99, 0).err(), Some(FsError::NotFound));
}

#[test]
fn a_full_buffer_is_reported() {
    assert_eq!(K8sFS::readdir_reply(3, 2), Err(FsError::NoBuffers));
    assert_eq!(K8sFS::readdir_reply(3, 0), Err(FsError::NoBuffers));
    assert_eq!(K8sFS::readdir_reply(3, 3), Ok(()));
    assert_eq!(K8sFS::readdir_reply(0, 0), Ok(()));
}

#[test]
fn lookup_is_exact_and_case_sensitive() {
    let fs = sample();
    assert_eq!(fs.get_file_by_name("default", CONTEXT_INODE).unwrap().inode, 2);
    assert_eq!(fs.lookup(CONTEXT_INODE, "Default", &None).err(), Some(FsError::NotFound));
    assert_eq!(fs.lookup(CONTEXT_INODE, "defaul", &None).err(), Some(FsError::NotFound));
    assert_eq!(fs.lookup(CONTEXT_INODE, "nginx", &None).err(), Some(FsError::NotFound));
    assert_eq!(fs.lookup(99, "default", &None).err(), Some(FsError::NotFound));
    assert_eq!(fs.get_file_by_name("ctx", ROOT_INODE).unwrap().inode, 1);
    assert_eq!(fs.get_file_by_name("default_definition.yaml", 2).unwrap().inode, 3);
}

#[test]
fn lookup_then_getattr_agree() {
    let fs = sample();
    let entry = fs.lookup(2, "nginx", &None).unwrap();
    assert_eq!(entry.ttl, 1);
    assert_eq!(entry.generation, 0);
    assert_eq!(entry.attr.ino, 4);
    assert_eq!(entry.attr.kind, FileType::Directory);
    assert_eq!(entry.attr.perm, 0o555);
    let again = fs.getattr(entry.attr.ino, &None).unwrap();
    assert_eq!(again.ttl, 1);
    assert_eq!(again.attr, entry.attr);
    assert_eq!(fs.get_file_by_inode(entry.attr.ino).unwrap().name, "nginx");

    let description = ran(true, b"abc");
    let entry = fs.lookup(2, "default_definition.yaml", &description).unwrap();
    assert_eq!(entry.attr.ino, 3);
    assert_eq!(entry.attr.kind, FileType::RegularFile);
    assert_eq!(entry.attr.perm, 0o444);
    assert_eq!(entry.attr.size, 3);
    assert_eq!(entry.attr.blocks, 1);
    assert_eq!(fs.getattr(3, &description).unwrap().attr, entry.attr);
    assert_eq!(fs.get_file_by_inode(3).unwrap().name, "default_definition.yaml");
}

#[test]
fn getattr_of_an_unknown_node_is_not_found() {
    let fs = sample();
    assert_eq!(fs.getattr(8, &None).err(), Some(FsError::NotFound));
}

#[test]
fn read_returns_the_window_of_the_content() {
    let fs = sample();
    let text = b"Name: default\nStatus: Active\n";
    let len = text.len();
    assert_eq!(fs.read(3, 0, len as u32, ran(true, text)), Ok(text.to_vec()));
    assert_eq!(fs.read(3, 0, 4096, ran(true, text)), Ok(text.to_vec()));
    assert_eq!(fs.read(3, 0, 4, ran(true, text)), Ok(b"Name".to_vec()));
    assert_eq!(fs.read(3, 6, 7, ran(true, text)), Ok(b"default".to_vec()));
    assert_eq!(fs.read(3, 6, u32::MAX, ran(true, text)), Ok(text[6..].to_vec()));
    assert_eq!(fs.read(3, len as i64, 10, ran(true, text)), Ok(Vec::new()));
    assert_eq!(fs.read(3, len as i64 + 1, 10, ran(true, text)), Ok(Vec::new()));
    assert_eq!(fs.read(3, i64::MAX, 10, ran(true, text)), Ok(Vec::new()));
    assert_eq!(fs.read(3, -1, 10, ran(true, text)), Ok(Vec::new()));
    assert_eq!(fs.read(3, 0, 0, ran(true, text)), Ok(Vec::new()));
}

#[test]
fn read_of_a_failed_description_is_empty() {
    let fs = sample();
    assert_eq!(fs.read(3, 0, 10, ran(false, b"partial")), Ok(Vec::new()));
    assert_eq!(fs.read(3, 0, 10, None), Ok(Vec::new()));
}

#[test]
fn read_of_a_directory_is_empty() {
    let fs = sample();
    assert_eq!(fs.read(2, 0, 10, ran(true, b"text")), Ok(Vec::new()));
}

#[test]
fn read_of_an_unknown_node_is_not_found() {
    let fs = sample();
    assert_eq!(fs.read(42, 0, 10, ran(true, b"text")), Err(FsError::NotFound));
}

#[test]
fn mkdir_under_the_context_adds_a_namespace() {
    let mut fs = sample();
    assert_eq!(fs.mkdir_request(CONTEXT_INODE).unwrap(), "ctx");
    let entry = fs.mkdir(CONTEXT_INODE, "staging", true).unwrap();
    assert_eq!(entry.ttl, 1);
    assert_eq!(entry.generation, 0);
    assert_eq!(entry.attr.ino, 8);
    assert_eq!(entry.attr.kind, FileType::Directory);
    assert_eq!(entry.attr.perm, 0o555);
    assert_eq!(entry.attr.size, 0);
    assert_eq!(entry.attr.blocks, 0);
    assert_eq!(
        rows(&fs.list_directory(CONTEXT_INODE, 0).unwrap()),
        vec![
            (2, 1, FileType::Directory, "default".to_string()),
            (6, 2, FileType::Directory, "kube-system".to_string()),
            (8, 3, FileType::Directory, "staging".to_string()),
        ]
    );
    assert_eq!(
        rows(&fs.list_directory(8, 0).unwrap()),
        vec![(9, 1, FileType::RegularFile, "staging_definition.yaml".to_string())]
    );
    let created = fs.get_file_by_name("staging", CONTEXT_INODE).unwrap();
    assert_eq!(created.inode, 8);
    assert_eq!(created.parent, CONTEXT_INODE);
    assert_eq!(created.resource_type, ResourceType::Namespace);
    assert_eq!(created.delete_cmd, "kubectl --context ctx delete namespaces staging");
    let definition = fs.get_file_by_inode(9).unwrap();
    assert_eq!(definition.parent, CONTEXT_INODE);
    assert_eq!(definition.description_cmd, "kubectl --context ctx describe namespaces staging");
    assert_eq!(fs.next_inode(), 10);
}

#[test]
fn mkdir_outside_the_context_is_denied() {
    let mut fs = sample();
    for parent in [ROOT_INODE, 2, 3, 4, 99] {
        assert_eq!(fs.mkdir_request(parent), Err(FsError::PermissionDenied));
        assert_eq!(fs.mkdir(parent, "staging", true).err(), Some(FsError::PermissionDenied));
    }
    assert_eq!(fs.next_inode(), 8);
    assert_eq!(node_count(&fs), 8);
    assert_eq!(fs.list_directory(CONTEXT_INODE, 0).unwrap().len(), 2);
    assert_eq!(fs.list_directory(2, 0).unwrap().len(), 2);
}

#[test]
fn mkdir_that_the_cluster_refused_is_denied() {
    let mut fs = sample();
    assert_eq!(fs.mkdir(CONTEXT_INODE, "staging", false).err(), Some(FsError::PermissionDenied));
    assert_eq!(fs.next_inode(), 8);
    assert_eq!(node_count(&fs), 8);
    assert_eq!(fs.lookup(CONTEXT_INODE, "staging", &None).err(), Some(FsError::NotFound));
}

#[test]
fn rmdir_removes_the_namespace_with_all_below_it() {
    let mut fs = sample();
    assert_eq!(
        fs.rmdir_request(CONTEXT_INODE, "default"),
        Ok(Some("kubectl --context ctx delete namespaces default".to_string()))
    );
    assert_eq!(fs.rmdir(CONTEXT_INODE, "default", &ran(true, b"deleted")), Ok(()));
    for inode in [2, 3, 4, 5] {
        assert!(fs.get_file_by_inode(inode).is_none());
    }
    for inode in [0, 1, 6, 7] {
        assert!(fs.get_file_by_inode(inode).is_some());
    }
    assert_eq!(
        rows(&fs.list_directory(CONTEXT_INODE, 0).unwrap()),
        vec![(6, 1, FileType::Directory, "kube-system".to_string())]
    );
    assert_eq!(fs.lookup(CONTEXT_INODE, "default", &None).err(), Some(FsError::NotFound));
    assert_eq!(fs.list_directory(2, 0).err(), Some(FsError::NotFound));
    assert_eq!(fs.next_inode(), 8);
}

#[test]
fn rmdir_of_an_absent_name_succeeds_and_changes_nothing() {
    let mut fs = sample();
    assert_eq!(fs.rmdir_request(CONTEXT_INODE, "staging"), Ok(None));
    assert_eq!(fs.rmdir(CONTEXT_INODE, "staging", &None), Ok(()));
    assert_eq!(node_count(&fs), 8);
    assert_eq!(fs.rmdir(CONTEXT_INODE, "default", &ran(true, b"")), Ok(()));
    assert_eq!(fs.rmdir(CONTEXT_INODE, "default", &ran(true, b"")), Ok(()));
    assert_eq!(fs.rmdir(CONTEXT_INODE, "default", &None), Ok(()));
    assert_eq!(node_count(&fs), 4);
}

#[test]
fn rmdir_outside_the_context_is_denied() {
    let mut fs = sample();
    assert_eq!(fs.rmdir_request(2, "nginx"), Err(FsError::PermissionDenied));
    assert_eq!(fs.rmdir(2, "nginx", &ran(true, b"")), Err(FsError::PermissionDenied));
    assert_eq!(fs.rmdir(ROOT_INODE, "ctx", &ran(true, b"")), Err(FsError::PermissionDenied));
    assert_eq!(node_count(&fs), 8);
    assert_eq!(fs.get_file_by_name("nginx", 2).unwrap().inode, 4);
}

#[test]
fn rmdir_that_the_cluster_refused_is_denied() {
    let mut fs = sample();
    assert_eq!(fs.rmdir(CONTEXT_INODE, "default", &ran(false, b"")), Err(FsError::PermissionDenied));
    assert_eq!(fs.rmdir(CONTEXT_INODE, "default", &None), Err(FsError::PermissionDenied));
    assert_eq!(node_count(&fs), 8);
    assert_eq!(fs.get_file_by_name("default", CONTEXT_INODE).unwrap().inode, 2);
    assert_eq!(fs.list_directory(CONTEXT_INODE, 0).unwrap().len(), 2);
}

#[test]
fn removing_the_middle_namespace_keeps_the_order_of_the_others() {
    let mut fs = K8sFS::new();
    fs.initialize_inode_table("ctx", &listing(&[("a", &[]), ("b", &["p"]), ("c", &[])]));
    assert_eq!(fs.rmdir(CONTEXT_INODE, "b", &ran(true, b"")), Ok(()));
    assert_eq!(
        rows(&fs.list_directory(CONTEXT_INODE, 0).unwrap()),
        vec![
            (2, 1, FileType::Directory, "a".to_string()),
            (8, 2, FileType::Directory, "c".to_string()),
        ]
    );
    assert_eq!(node_count(&fs), 6);
}

#[test]
fn initialization_is_possible_once() {
    let mut fs = K8sFS::new();
    let namespaces = listing(&[("default", &["nginx"])]);
    assert!(fs.can_initialize(&namespaces));
    assert!(fs.can_initialize(&Vec::new()));
    assert!(!fs.can_create());
    fs.initialize_inode_table("ctx", &namespaces);
    assert!(!fs.can_initialize(&namespaces));
    assert!(!fs.can_initialize(&Vec::new()));
    assert!(fs.can_create());
}

#[test]
fn allocation_alone_ends_the_fresh_state() {
    let mut fs = K8sFS::new();
    assert_eq!(fs.calculate_next_inode(), 2);
    assert!(!fs.can_initialize(&Vec::new()));
}

#[test]
fn what_a_listing_shows_a_lookup_finds() {
    let mut fs = K8sFS::new();
    fs.initialize_inode_table("ctx", &listing(&[("a", &["p", "q"]), ("b", &[])]));
    fs.mkdir(CONTEXT_INODE, "c", true).unwrap();
    for directory in 0..fs.next_inode() {
        for entry in fs.list_directory(directory, 0).unwrap() {
            let found = fs.get_file_by_name(&entry.name, directory).unwrap();
            assert_eq!(found.inode, entry.inode);
            assert_eq!(found.filetype(), entry.kind);
            assert_eq!(fs.lookup(directory, &entry.name, &None).unwrap().attr.ino, entry.inode);
        }
    }
}

#[test]
fn lookup_finds_the_first_of_two_entries_with_one_name() {
    let mut fs = K8sFS::new();
    fs.initialize_inode_table("ctx", &listing(&[("a", &[]), ("a", &[])]));
    assert_eq!(fs.get_file_by_name("a", CONTEXT_INODE).unwrap().inode, 2);
    assert_eq!(fs.list_directory(CONTEXT_INODE, 0).unwrap().len(), 2);
    assert_eq!(fs.rmdir(CONTEXT_INODE, "a", &Some(CommandOutput { success: true, stdout: Vec::new() })), Ok(()));
    assert_eq!(fs.get_file_by_name("a", CONTEXT_INODE).unwrap().inode, 4);
}
