//! A snapshot of a file-system subtree, and the sizes read from it.

use vstd::prelude::*;

verus! {

/// What the file system reports of a node itself; of a symbolic link this is
/// the link record, never its target.
#[derive(Clone, Copy, Debug)]
pub struct Metadata {
    /// The node is a symbolic link.
    pub is_symlink: bool,
    /// Logical length in bytes.
    pub size: u64,
    /// Storage blocks occupied, in units of `BLOCK_UNIT` bytes.
    pub blocks: u64,
    /// File type and permission bits.
    pub mode: u32,
}

/// One node of a file-system snapshot.
#[derive(Debug)]
pub struct FsNode {
    /// Display name.
    pub name: String,
    /// Extension of the path the node was reached by, if it has one.
    pub extension: Option<String>,
    /// `None` where the node's metadata could not be read.
    pub metadata: Option<Metadata>,
    /// The node is a directory, or a link that leads to one.
    pub is_dir: bool,
    /// The node is a regular file, or a link that leads to one.
    pub is_file: bool,
    /// For a link: its target exists.
    pub target_exists: bool,
    /// The nodes listed in a directory; `None` for anything that is not a
    /// directory, for a link, and for a directory that could not be listed.
    pub entries: Option<Vec<FsNode>>,
}

/// The final component of a resolved path, as far as it can be read.
#[derive(Debug)]
pub enum FileName {
    /// The path has no final component, as the root has none.
    Missing,
    /// The final component is no valid text.
    Undecodable,
    /// The final component.
    Text(String),
}

/// The name shown for a path without a final component.
pub const ROOT_NAME: &'static str = "/";

/// The name shown for a final component that is no valid text.
pub const INVALID_NAME: &'static str = "[invalid name]";

impl FileName {
    /// The display name of a path with this final component.
    pub open spec fn display(self) -> Seq<char> {
        match self {
            FileName::Missing => ROOT_NAME@,
            FileName::Undecodable => INVALID_NAME@,
            FileName::Text(name) => name@,
        }
    }
}

/// The display name of a path, from its final component.
pub fn file_name_from_path(last: FileName) -> (name: String)
    ensures
        name@ == last.display(),
{
    match last {
        FileName::Missing => ROOT_NAME.to_owned(),
        FileName::Undecodable => INVALID_NAME.to_owned(),
        FileName::Text(name) => name,
    }
}

/// Whether the entries of a node are to be listed: those of a directory
/// that is no symbolic link. Links are never followed.
pub fn try_read_dir(is_dir: bool, metadata: &Option<Metadata>) -> (list: bool)
    ensures
        list == (is_dir && !(metadata matches Some(m) && m.is_symlink)),
{
    let link: bool = match metadata {
        Some(m) => m.is_symlink,
        None => false,
    };
    is_dir && !link
}

/// The report of a node that could not be read: its display name, and the
/// kind of the error.
pub open spec fn error_text(name: Seq<char>, kind: Seq<char>) -> Seq<char> {
    "Couldn't read "@ + name + " ("@ + kind + ")"@
}

/// Writes the report of a node that could not be read, see [`error_text`].
pub fn fmt_io_error(name: &str, kind: &str) -> (report: String)
    ensures
        report@ == error_text(name@, kind@),
{
    let mut report: String = String::from_str("Couldn't read ");
    report.append(name);
    report.append(" (");
    report.append(kind);
    report.append(")");
    report
}

/// Bytes per storage block.
pub const BLOCK_UNIT: u64 = 512;

impl FsNode {
    /// The node is known to be a symbolic link.
    pub open spec fn is_link(&self) -> bool {
        self.metadata matches Some(m) && m.is_symlink
    }

    /// The size of the node alone: its logical length, or with `usage` the
    /// storage it occupies; zero where its metadata could not be read.
    pub open spec fn self_size(&self, usage: bool) -> nat {
        match self.metadata {
            Some(m) => if usage {
                m.blocks as nat * BLOCK_UNIT as nat
            } else {
                m.size as nat
            },
            None => 0,
        }
    }

    /// The size of the node and of everything below it.
    pub open spec fn total_size(&self, usage: bool) -> nat
        decreases self,
    {
        self.self_size(usage) + if self.is_dir {
            match self.entries {
                Some(v) => sum_total_size(v@, usage),
                None => 0,
            }
        } else {
            0
        }
    }
}

/// The sizes of all of `nodes`, each with everything below it, added up.
pub open spec fn sum_total_size(nodes: Seq<FsNode>, usage: bool) -> nat
    decreases nodes,
{
    if nodes.len() == 0 {
        0
    } else {
        sum_total_size(nodes.drop_last(), usage) + nodes.last().total_size(usage)
    }
}

/// Adding one more node adds its total; what stands before it is no larger
/// than the whole.
pub proof fn lemma_sum_total_size_step(nodes: Seq<FsNode>, usage: bool, i: int)
    requires
        0 <= i < nodes.len(),
    ensures
        sum_total_size(nodes.take(i + 1), usage) == sum_total_size(nodes.take(i), usage)
            + nodes[i].total_size(usage),
        sum_total_size(nodes.take(i + 1), usage) <= sum_total_size(nodes, usage),
    decreases nodes.len() - i,
{
    assert(nodes.take(i + 1).drop_last() == nodes.take(i));
    if i + 1 < nodes.len() {
        lemma_sum_total_size_step(nodes, usage, i + 1);
    } else {
        assert(nodes.take(i + 1) == nodes);
    }
}

/// Whether the node is known to be a symbolic link: a node whose metadata
/// could not be read counts as none.
pub fn try_is_symlink(node: &FsNode) -> (link: bool)
    ensures
        link == node.is_link(),
{
    match node.metadata {
        Some(m) => m.is_symlink,
        None => false,
    }
}

/// `n` as a machine number, where it is one.
pub open spec fn checked(n: nat) -> Option<u64> {
    if n <= u64::MAX {
        Some(n as u64)
    } else {
        None
    }
}

/// The size of the node alone, see [`FsNode::self_size`]: `None` where it
/// does not fit.
pub fn checked_self_bytes(node: &FsNode, usage_flag: bool) -> (bytes: Option<u64>)
    ensures
        bytes == checked(node.self_size(usage_flag)),
{
    match node.metadata {
        Some(m) => if usage_flag {
            m.blocks.checked_mul(BLOCK_UNIT)
        } else {
            Some(m.size)
        },
        None => Some(0),
    }
}

/// The size of the node alone, see [`FsNode::self_size`].
pub fn try_bytes_from_path(node: &FsNode, usage_flag: bool) -> (bytes: u64)
    requires
        node.self_size(usage_flag) <= u64::MAX,
    ensures
        bytes == node.self_size(usage_flag),
{
    checked_self_bytes(node, usage_flag).unwrap()
}

/// The size of the node and of everything below it, see
/// [`FsNode::total_size`]: `None` where it does not fit. Nothing is filtered
/// and no depth limit applies.
pub fn checked_bytes(node: &FsNode, usage_flag: bool) -> (bytes: Option<u64>)
    ensures
        bytes == checked(node.total_size(usage_flag)),
    decreases node,
{
    let mut bytes: u64 = match checked_self_bytes(node, usage_flag) {
        Some(b) => b,
        None => {
            return None;
        },
    };
    if node.is_dir {
        if let Some(list) = &node.entries {
            let mut i: usize = 0;
            while i < list.len()
                invariant
                    i <= list.len(),
                    node.is_dir,
                    node.entries == Some(*list),
                    bytes == node.self_size(usage_flag) + sum_total_size(
                        list@.take(i as int),
                        usage_flag,
                    ),
                decreases list.len() - i,
            {
                proof {
                    lemma_sum_total_size_step(list@, usage_flag, i as int);
                    assert(node.entries->0 == *list);
                }
                let sum: Option<u64> = match checked_bytes(&list[i], usage_flag) {
                    Some(b) => bytes.checked_add(b),
                    None => None,
                };
                match sum {
                    Some(b) => {
                        bytes = b;
                    },
                    None => {
                        return None;
                    },
                }
                i = i + 1;
            }
            assert(list@.take(i as int) == list@);
        }
    }
    Some(bytes)
}

/// The size of the node and of everything below it, see
/// [`FsNode::total_size`].
pub fn get_bytes(node: &FsNode, usage_flag: bool) -> (bytes: u64)
    requires
        node.total_size(usage_flag) <= u64::MAX,
    ensures
        bytes == node.total_size(usage_flag),
{
    checked_bytes(node, usage_flag).unwrap()
}

} // verus!
