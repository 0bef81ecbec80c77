//! One entry of the tree: its identity, its classification, and the rules
//! that give its attributes and content.

use vstd::prelude::*;
use vstd::string::*;

verus! {

/// Identifier of a node, stable for the lifetime of a mount.
pub type Inode = u64;

/// Number of bytes in one block of file content.
pub const BLOCK_SIZE: u32 = 1024;

/// The marker appended to a directory's name to name its definition file.
pub open spec fn definition_suffix() -> Seq<char> {
    "_definition.yaml"@
}

/// The kinds of node in the tree. `Definition` is the only kind that is a
/// regular file; every other kind is a directory.
#[derive(Debug, Copy, Clone, PartialEq, Eq, Structural)]
pub enum ResourceType {
    Root,
    Context,
    Namespace,
    Pod,
    Definition,
}

/// What a node looks like to the kernel.
#[derive(Debug, Copy, Clone, PartialEq, Eq, Structural)]
pub enum FileType {
    Directory,
    RegularFile,
}

/// Attributes of a node. Times are seconds since the Unix epoch.
#[derive(Debug, Copy, Clone, PartialEq, Eq, Structural)]
pub struct FileAttr {
    pub ino: Inode,
    pub size: u64,
    pub blocks: u64,
    pub atime: u64,
    pub mtime: u64,
    pub ctime: u64,
    pub crtime: u64,
    pub kind: FileType,
    pub perm: u16,
    pub nlink: u32,
    pub uid: u32,
    pub gid: u32,
    pub rdev: u32,
    pub blksize: u32,
    pub flags: u32,
}

/// What came back from an external command that ran to completion.
#[derive(Debug, Clone)]
pub struct CommandOutput {
    /// Whether the command exited with status zero.
    pub success: bool,
    /// Everything the command wrote to its standard output.
    pub stdout: Vec<u8>,
}

/// The name of a kind as it appears in diagnostics.
pub open spec fn kind_name(resource_type: ResourceType) -> Seq<char> {
    match resource_type {
        ResourceType::Root => "Root"@,
        ResourceType::Context => "Context"@,
        ResourceType::Namespace => "Namespace"@,
        ResourceType::Pod => "Pod"@,
        ResourceType::Definition => "Definition"@,
    }
}

/// The command line that performs `action` on a resource. Only namespaces
/// and pods have one; for the other kinds the text is a diagnostic that names
/// no program.
pub open spec fn kubectl_command(
    action: Seq<char>,
    resource_type: ResourceType,
    context: Seq<char>,
    namespace: Seq<char>,
    resource_name: Seq<char>,
) -> Seq<char> {
    match resource_type {
        ResourceType::Namespace => "kubectl --context "@ + context + " "@ + action
            + " namespaces "@ + resource_name,
        ResourceType::Pod => "kubectl --context "@ + context + " --namespace "@ + namespace
            + " "@ + action + " pods "@ + resource_name,
        _ => "Files of type "@ + kind_name(resource_type) + " do not support "@ + action + "!"@,
    }
}

fn type_label(resource_type: ResourceType) -> (label: &'static str)
    ensures
        label@ == kind_name(resource_type),
{
    match resource_type {
        ResourceType::Root => "Root",
        ResourceType::Context => "Context",
        ResourceType::Namespace => "Namespace",
        ResourceType::Pod => "Pod",
        ResourceType::Definition => "Definition",
    }
}

pub fn build_kubectl_command(
    action: &str,
    resource_type: ResourceType,
    context: &str,
    namespace: &str,
    resource_name: &str,
) -> (command: String)
    ensures
        command@ == kubectl_command(action@, resource_type, context@, namespace@, resource_name@),
{
    match resource_type {
        ResourceType::Namespace => {
            let mut command = String::from_str("kubectl --context ");
            command.append(context);
            command.append(" ");
            command.append(action);
            command.append(" namespaces ");
            command.append(resource_name);
            command
        },
        ResourceType::Pod => {
            let mut command = String::from_str("kubectl --context ");
            command.append(context);
            command.append(" --namespace ");
            command.append(namespace);
            command.append(" ");
            command.append(action);
            command.append(" pods ");
            command.append(resource_name);
            command
        },
        _ => {
            let mut command = String::from_str("Files of type ");
            command.append(type_label(resource_type));
            command.append(" do not support ");
            command.append(action);
            command.append("!");
            command
        },
    }
}

/// The words put together again, with `separator` between every two.
pub open spec fn joined(words: Seq<Seq<char>>, separator: char) -> Seq<char>
    decreases words.len(),
{
    if words.len() == 0 {
        Seq::empty()
    } else if words.len() == 1 {
        words[0]
    } else {
        joined(words.drop_last(), separator).push(separator) + words.last()
    }
}

/// Calls `str::split` with a character as the pattern. The pieces are the
/// parts of the text between the separators: there is at least one, none
/// holds the separator, and with the separator between them they give the
/// text again.
#[verifier::external_body]
fn split(text: &str, separator: char) -> (pieces: Vec<String>)
    ensures
        pieces@.len() >= 1,
        forall|i: int|
            0 <= i < pieces@.len() ==> !(#[trigger] pieces@[i])@.contains(separator),
        joined(pieces@.map_values(|piece: String| piece@), separator) == text@,
{
    text.split(separator).map(|piece| piece.to_string()).collect()
}

/// Takes a command line apart at its blanks: the first word is the program
/// to run and the others are its arguments. Two blanks in a row give an
/// empty word between them.
pub fn command_words(command: &str) -> (words: Vec<String>)
    ensures
        words@.len() >= 1,
        forall|i: int| 0 <= i < words@.len() ==> !(#[trigger] words@[i])@.contains(' '),
        joined(words@.map_values(|word: String| word@), ' ') == command@,
{
    split(command, ' ')
}

/// The number of blocks that `size` bytes occupy: the ceiling of `size`
/// divided by the block size, and so zero for an empty file.
pub open spec fn block_count(size: u64) -> int {
    (size + BLOCK_SIZE - 1) / (BLOCK_SIZE as int)
}

/// One node of the tree.
#[derive(Debug, Clone)]
pub struct ResourceFile {
    pub inode: Inode,
    /// The directory this node belongs to; a definition file has the parent
    /// of the directory it describes.
    pub parent: Inode,
    pub resource_type: ResourceType,
    pub name: String,
    pub delete_cmd: String,
    pub description_cmd: String,
}

impl ResourceFile {
    pub fn new(
        inode: Inode,
        parent: Inode,
        resource_name: &str,
        resource_type: ResourceType,
        context: &str,
        namespace: &str,
    ) -> (file: Self)
        ensures
            file.inode == inode,
            file.parent == parent,
            file.resource_type == resource_type,
            file.name@ == resource_name@,
            file.delete_cmd@ == kubectl_command(
                "delete"@,
                resource_type,
                context@,
                namespace@,
                resource_name@,
            ),
            file.description_cmd@ == kubectl_command(
                "describe"@,
                resource_type,
                context@,
                namespace@,
                resource_name@,
            ),
    {
        Self {
            inode,
            parent,
            resource_type,
            name: String::from_str(resource_name),
            delete_cmd: build_kubectl_command(
                "delete",
                resource_type,
                context,
                namespace,
                resource_name,
            ),
            description_cmd: build_kubectl_command(
                "describe",
                resource_type,
                context,
                namespace,
                resource_name,
            ),
        }
    }

    /// The definition file of this directory: a sibling by its parent, named
    /// after the directory, that carries the directory's commands.
    pub fn create_definition_file(&self, inode: Inode) -> (file: Self)
        ensures
            file.inode == inode,
            file.parent == self.parent,
            file.resource_type == ResourceType::Definition,
            file.name@ == self.name@ + definition_suffix(),
            file.delete_cmd@ == self.delete_cmd@,
            file.description_cmd@ == self.description_cmd@,
    {
        let mut name = self.name.clone();
        name.append("_definition.yaml");
        ResourceFile {
            inode,
            parent: self.parent,
            resource_type: ResourceType::Definition,
            name,
            delete_cmd: self.delete_cmd.clone(),
            description_cmd: self.description_cmd.clone(),
        }
    }

    pub open spec fn spec_is_definition_file(&self) -> bool {
        self.resource_type == ResourceType::Definition
    }

    #[verifier::when_used_as_spec(spec_is_definition_file)]
    pub fn is_definition_file(&self) -> (definition: bool)
        ensures
            definition == self.spec_is_definition_file(),
    {
        self.resource_type == ResourceType::Definition
    }

    pub open spec fn spec_filetype(&self) -> FileType {
        if self.is_definition_file() {
            FileType::RegularFile
        } else {
            FileType::Directory
        }
    }

    #[verifier::when_used_as_spec(spec_filetype)]
    pub fn filetype(&self) -> (kind: FileType)
        ensures
            kind == self.spec_filetype(),
    {
        if self.is_definition_file() {
            FileType::RegularFile
        } else {
            FileType::Directory
        }
    }

    /// The command whose output is this node's content. Only a definition
    /// file has content, so only it has such a command.
    pub fn description_command(&self) -> (command: Option<&str>)
        ensures
            command is Some <==> self.is_definition_file(),
            command matches Some(c) ==> c@ == self.description_cmd@,
    {
        if self.is_definition_file() {
            Some(self.description_cmd.as_str())
        } else {
            None
        }
    }

    /// Whether deleting this node means deleting a resource of the cluster.
    pub open spec fn deletable(&self) -> bool {
        self.resource_type == ResourceType::Namespace || self.resource_type == ResourceType::Pod
    }

    /// The command that deletes the resource behind this node. Only
    /// namespaces and pods can be deleted.
    pub fn delete_command(&self) -> (command: Option<&str>)
        ensures
            command is Some <==> self.deletable(),
            command matches Some(c) ==> c@ == self.delete_cmd@,
    {
        match self.resource_type {
            ResourceType::Namespace | ResourceType::Pod => Some(self.delete_cmd.as_str()),
            _ => None,
        }
    }

    /// The content of this node, given what its description command
    /// produced: the command's output when the node is a definition file and
    /// the command succeeded, and nothing otherwise. `None` stands for a
    /// command that could not be run.
    pub open spec fn content(&self, description: Option<CommandOutput>) -> Seq<u8> {
        match description {
            Some(output) if self.is_definition_file() && output.success => output.stdout@,
            _ => Seq::empty(),
        }
    }

    pub fn get_desc(&self, description: Option<CommandOutput>) -> (bytes: Vec<u8>)
        ensures
            bytes@ == self.content(description),
    {
        if self.filetype() != FileType::RegularFile {
            return Vec::new();
        }
        match description {
            Some(output) => {
                if output.success {
                    output.stdout
                } else {
                    Vec::new()
                }
            },
            None => Vec::new(),
        }
    }

    pub fn size(&self, description: &Option<CommandOutput>) -> (bytes: u64)
        ensures
            bytes == self.content(*description).len(),
    {
        if self.filetype() != FileType::RegularFile {
            return 0;
        }
        match description {
            Some(output) => {
                if output.success {
                    output.stdout.len() as u64
                } else {
                    0
                }
            },
            None => 0,
        }
    }

    /// The attributes of this node, given what its description command
    /// produced.
    pub open spec fn attributes(&self, description: Option<CommandOutput>) -> FileAttr {
        let size = self.content(description).len() as u64;
        FileAttr {
            ino: self.inode,
            size,
            blocks: block_count(size) as u64,
            atime: 0,
            mtime: 0,
            ctime: 0,
            crtime: 0,
            kind: self.filetype(),
            perm: if self.is_definition_file() {
                0o444
            } else {
                0o555
            },
            nlink: 1,
            uid: 0,
            gid: 0,
            rdev: 0,
            blksize: BLOCK_SIZE,
            flags: 0,
        }
    }

    pub fn fileattrs(&self, description: &Option<CommandOutput>) -> (attrs: FileAttr)
        ensures
            attrs == self.attributes(*description),
    {
        let permissions: u16 = if self.filetype() == FileType::Directory {
            0o555
        } else {
            0o444
        };
        let file_size = self.size(description);
        let whole_blocks = file_size / (BLOCK_SIZE as u64);
        let file_block_size = if file_size % (BLOCK_SIZE as u64) > 0 {
            whole_blocks + 1
        } else {
            whole_blocks
        };
        FileAttr {
            ino: self.inode,
            size: file_size,
            blocks: file_block_size,
            atime: 0,
            mtime: 0,
            ctime: 0,
            crtime: 0,
            kind: self.filetype(),
            perm: permissions,
            nlink: 1,
            uid: 0,
            gid: 0,
            rdev: 0,
            blksize: BLOCK_SIZE,
            flags: 0,
        }
    }

    /// Whether the resource behind this node is gone, given what its delete
    /// command produced. `None` stands for a command that could not be run.
    pub open spec fn deleted(&self, outcome: Option<CommandOutput>) -> bool {
        self.deletable() && outcome is Some && outcome->0.success
    }

    pub fn delete(&self, outcome: &Option<CommandOutput>) -> (success: bool)
        ensures
            success == self.deleted(*outcome),
    {
        match self.resource_type {
            ResourceType::Namespace | ResourceType::Pod => match outcome {
                Some(output) => output.success,
                None => false,
            },
            _ => false,
        }
    }
}

} // verus!
