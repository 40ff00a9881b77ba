//! The tree of files and directories that a scan produces.
use vstd::prelude::*;
use crate::text;

verus! {

/// A node of the mapped tree: a file with its optional extension, or a
/// directory with its children.
#[derive(Debug, PartialEq, Eq)]
pub enum FileNode {
    File { name: String, extension: Option<String> },
    Directory { name: String, children: Vec<FileNode> },
}

/// The mathematical value of a [`FileNode`]: texts as character sequences.
pub enum NodeView {
    File { name: Seq<char>, extension: Option<Seq<char>> },
    Directory { name: Seq<char>, children: Seq<NodeView> },
}

/// The view of an optional string.
pub open spec fn opt_text(o: Option<String>) -> Option<Seq<char>> {
    match o {
        Some(s) => Some(s@),
        None => None,
    }
}

/// The view of a node.
pub open spec fn node_view(n: FileNode) -> NodeView
    decreases n,
{
    match n {
        FileNode::File { name, extension } => NodeView::File {
            name: name@,
            extension: opt_text(extension),
        },
        FileNode::Directory { name, children } => NodeView::Directory {
            name: name@,
            children: Seq::new(
                children@.len(),
                |i: int|
                    if 0 <= i < children@.len() {
                        node_view(children@[i])
                    } else {
                        NodeView::File { name: Seq::empty(), extension: None }
                    },
            ),
        },
    }
}

/// The views of a sequence of nodes.
pub open spec fn nodes_view(s: Seq<FileNode>) -> Seq<NodeView> {
    s.map_values(|n: FileNode| node_view(n))
}

impl View for FileNode {
    type V = NodeView;

    open spec fn view(&self) -> NodeView {
        node_view(*self)
    }
}

/// The name of a node.
pub open spec fn name_of(v: NodeView) -> Seq<char> {
    match v {
        NodeView::File { name, .. } => name,
        NodeView::Directory { name, .. } => name,
    }
}

/// Directories come first (rank 0), files after them (rank 1).
pub open spec fn rank_of(v: NodeView) -> int {
    match v {
        NodeView::Directory { .. } => 0,
        NodeView::File { .. } => 1,
    }
}

/// Whether `a` is listed strictly before `b`: directories before files, and
/// within each kind by name in text order.
pub open spec fn node_before(a: NodeView, b: NodeView) -> bool {
    rank_of(a) < rank_of(b) || (rank_of(a) == rank_of(b) && text::text_lt(name_of(a), name_of(b)))
}

impl FileNode {
    /// A directory node with the given children.
    pub fn directory(name: String, children: Vec<FileNode>) -> (r: Self)
        ensures
            r@ == (NodeView::Directory { name: name@, children: nodes_view(children@) }),
    {
        let r = FileNode::Directory { name, children };
        proof {
            if let NodeView::Directory { name: _, children: c } = r@ {
                assert(c =~= nodes_view(children@));
            }
        }
        r
    }

    /// A file node with the given extension.
    pub fn file(name: String, extension: Option<String>) -> (r: Self)
        ensures
            r@ == (NodeView::File { name: name@, extension: opt_text(extension) }),
    {
        FileNode::File { name, extension }
    }

    /// The node's name.
    pub fn name(&self) -> (r: &String)
        ensures
            r@ == name_of(self@),
    {
        match self {
            FileNode::File { name, .. } => name,
            FileNode::Directory { name, .. } => name,
        }
    }

    /// Whether the node is a directory.
    pub fn is_directory(&self) -> (r: bool)
        ensures
            r == (rank_of(self@) == 0),
    {
        match self {
            FileNode::File { .. } => false,
            FileNode::Directory { .. } => true,
        }
    }
}

/// Whether `a` is listed strictly before `b` (exec form of [`node_before`]).
pub fn node_before_exec(a: &FileNode, b: &FileNode) -> (r: bool)
    ensures
        r == node_before(a@, b@),
{
    let da = a.is_directory();
    let db = b.is_directory();
    if da != db {
        da
    } else {
        text::text_less(a.name().as_str(), b.name().as_str())
    }
}

}
