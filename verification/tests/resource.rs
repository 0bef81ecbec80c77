use k8sfs::k8s_resource::{
    build_kubectl_command, command_words, CommandOutput, FileAttr, FileType, ResourceFile,
    ResourceType, BLOCK_SIZE,
};

fn ran(success: bool, stdout: &[u8]) -> Option<CommandOutput> {
    Some(CommandOutput { success, stdout: stdout.to_vec() })
}

fn namespace() -> ResourceFile {
    ResourceFile::new(2, 1, "default", ResourceType::Namespace, "ctx", "default")
}

fn pod() -> ResourceFile {
    ResourceFile::new(4, 2, "nginx", ResourceType::Pod, "ctx", "default")
}

#[test]
fn commands_for_a_namespace() {
    assert_eq!(
        build_kubectl_command("delete", ResourceType::Namespace, "ctx", "ignored", "default"),
        "kubectl --context ctx delete namespaces default"
    );
    assert_eq!(
        build_kubectl_command("describe", ResourceType::Namespace, "ctx", "", "default"),
        "kubectl --context ctx describe namespaces default"
    );
}

#[test]
fn commands_for_a_pod() {
    assert_eq!(
        build_kubectl_command("describe", ResourceType::Pod, "ctx", "default", "nginx"),
        "kubectl --context ctx --namespace default describe pods nginx"
    );
}

#[test]
fn other_kinds_have_no_command() {
    assert_eq!(
        build_kubectl_command("delete", ResourceType::Root, "ctx", "", "root"),
        "Files of type Root do not support delete!"
    );
    assert_eq!(
        build_kubectl_command("describe", ResourceType::Context, "ctx", "", "ctx"),
        "Files of type Context do not support describe!"
    );
    assert_eq!(
        build_kubectl_command("describe", ResourceType::Definition, "ctx", "", "x"),
        "Files of type Definition do not support describe!"
    );
}

#[test]
fn new_node_carries_its_values() {
    let file = pod();
    assert_eq!(file.inode, 4);
    assert_eq!(file.parent, 2);
    assert_eq!(file.resource_type, ResourceType::Pod);
    assert_eq!(file.name, "nginx");
    assert_eq!(file.delete_cmd, "kubectl --context ctx --namespace default delete pods nginx");
    assert_eq!(
        file.description_cmd,
        "kubectl --context ctx --namespace default describe pods nginx"
    );
    assert!(!file.is_definition_file());
    assert_eq!(file.filetype(), FileType::Directory);
}

#[test]
fn definition_file_is_a_sibling_with_the_commands_of_its_directory() {
    let directory = pod();
    let file = directory.create_definition_file(5);
    assert_eq!(file.inode, 5);
    assert_eq!(file.parent, 2);
    assert_eq!(file.resource_type, ResourceType::Definition);
    assert_eq!(file.name, "nginx_definition.yaml");
    assert_eq!(file.delete_cmd, directory.delete_cmd);
    assert_eq!(file.description_cmd, directory.description_cmd);
    assert!(file.is_definition_file());
    assert_eq!(file.filetype(), FileType::RegularFile);
}

#[test]
fn a_directory_named_like_a_definition_file_is_a_directory() {
    let file =
        ResourceFile::new(9, 1, "odd_definition.yaml", ResourceType::Namespace, "ctx", "x");
    assert!(!file.is_definition_file());
    assert_eq!(file.filetype(), FileType::Directory);
}

#[test]
fn only_a_definition_file_has_a_description_command() {
    let directory = namespace();
    assert_eq!(directory.description_command(), None);
    let file = directory.create_definition_file(3);
    assert_eq!(
        file.description_command(),
        Some("kubectl --context ctx describe namespaces default")
    );
}

#[test]
fn only_namespaces_and_pods_have_a_delete_command() {
    assert_eq!(
        namespace().delete_command(),
        Some("kubectl --context ctx delete namespaces default")
    );
    assert_eq!(
        pod().delete_command(),
        Some("kubectl --context ctx --namespace default delete pods nginx")
    );
    assert_eq!(namespace().create_definition_file(3).delete_command(), None);
    let root = ResourceFile::new(0, 0, "root", ResourceType::Root, "", "");
    assert_eq!(root.delete_command(), None);
    let context = ResourceFile::new(1, 0, "ctx", ResourceType::Context, "ctx", "");
    assert_eq!(context.delete_command(), None);
}

#[test]
fn content_is_the_output_of_a_successful_description() {
    let file = namespace().create_definition_file(3);
    assert_eq!(file.get_desc(ran(true, b"Name: default\n")), b"Name: default\n".to_vec());
    assert_eq!(file.get_desc(ran(false, b"Name: default\n")), Vec::<u8>::new());
    assert_eq!(file.get_desc(None), Vec::<u8>::new());
    assert_eq!(namespace().get_desc(ran(true, b"Name: default\n")), Vec::<u8>::new());
}

#[test]
fn size_is_the_length_of_the_content() {
    let file = namespace().create_definition_file(3);
    assert_eq!(file.size(&ran(true, b"12345")), 5);
    assert_eq!(file.size(&ran(true, b"")), 0);
    assert_eq!(file.size(&ran(false, b"12345")), 0);
    assert_eq!(file.size(&None), 0);
    assert_eq!(namespace().size(&ran(true, b"12345")), 0);
}

#[test]
fn block_count_is_the_ceiling_of_size_by_block_size() {
    let file = namespace().create_definition_file(3);
    assert_eq!(BLOCK_SIZE, 1024);
    for (size, blocks) in [(0, 0), (1, 1), (1023, 1), (1024, 1), (1025, 2), (2048, 2), (2049, 3)] {
        let attrs = file.fileattrs(&ran(true, &vec![b'x'; size]));
        assert_eq!(attrs.size, size as u64);
        assert_eq!(attrs.blocks, blocks);
    }
}

#[test]
fn attributes_of_a_definition_file() {
    let file = namespace().create_definition_file(3);
    assert_eq!(
        file.fileattrs(&ran(true, b"hello")),
        FileAttr {
            ino: 3,
            size: 5,
            blocks: 1,
            atime: 0,
            mtime: 0,
            ctime: 0,
            crtime: 0,
            kind: FileType::RegularFile,
            perm: 0o444,
            nlink: 1,
            uid: 0,
            gid: 0,
            rdev: 0,
            blksize: 1024,
            flags: 0,
        }
    );
}

#[test]
fn attributes_of_a_directory() {
    assert_eq!(
        namespace().fileattrs(&ran(true, b"hello")),
        FileAttr {
            ino: 2,
            size: 0,
            blocks: 0,
            atime: 0,
            mtime: 0,
            ctime: 0,
            crtime: 0,
            kind: FileType::Directory,
            perm: 0o555,
            nlink: 1,
            uid: 0,
            gid: 0,
            rdev: 0,
            blksize: 1024,
            flags: 0,
        }
    );
}

#[test]
fn delete_reports_what_the_command_did() {
    assert!(namespace().delete(&ran(true, b"")));
    assert!(pod().delete(&ran(true, b"")));
    assert!(!namespace().delete(&ran(false, b"")));
    assert!(!namespace().delete(&None));
    assert!(!namespace().create_definition_file(3).delete(&ran(true, b"")));
    let root = ResourceFile::new(0, 0, "root", ResourceType::Root, "", "");
    assert!(!root.delete(&ran(true, b"")));
}

#[test]
fn command_is_split_at_every_blank() {
    assert_eq!(
        command_words("kubectl --context ctx delete namespaces default"),
        vec!["kubectl", "--context", "ctx", "delete", "namespaces", "default"]
    );
    assert_eq!(command_words("kubectl"), vec!["kubectl"]);
    assert_eq!(command_words(""), vec![""]);
    assert_eq!(command_words("a  b "), vec!["a", "", "b", ""]);
}
