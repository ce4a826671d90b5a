//! The records of the store: nodes of three kinds, typed edges between them,
//! tags, and the log of status changes; with their mathematical views.
use vstd::prelude::*;
use crate::text::{join2, str_eq};

verus! {

/// The views of a sequence of rows.
pub open spec fn views<T: View>(s: Seq<T>) -> Seq<T::V> {
    s.map_values(|x: T| x@)
}

/// The three levels of the hierarchy.
#[derive(Debug, Clone, Copy, PartialEq, Eq, Structural)]
pub enum NodeType {
    Project,
    Phase,
    Task,
}

/// The textual name under which a node type is stored.
pub open spec fn node_type_name(t: NodeType) -> Seq<char> {
    match t {
        NodeType::Project => "project"@,
        NodeType::Phase => "phase"@,
        NodeType::Task => "task"@,
    }
}

/// The one kind of node that may sit directly below a node of type `t`.
pub open spec fn spec_child_type(t: NodeType) -> Option<NodeType> {
    match t {
        NodeType::Project => Some(NodeType::Phase),
        NodeType::Phase => Some(NodeType::Task),
        NodeType::Task => None,
    }
}

/// The node type named `s`, if any.
pub open spec fn parse_node_type(s: Seq<char>) -> Option<NodeType> {
    if s == "project"@ {
        Some(NodeType::Project)
    } else if s == "phase"@ {
        Some(NodeType::Phase)
    } else if s == "task"@ {
        Some(NodeType::Task)
    } else {
        None
    }
}

impl std::str::FromStr for NodeType {
    type Err = String;

    /// The same parse as the inherent `NodeType::from_str`.
    fn from_str(s: &str) -> (r: Result<NodeType, String>)
        ensures
            match parse_node_type(s@) {
                Some(t) => r == Ok::<NodeType, String>(t),
                None => r matches Err(msg) && msg@ == "invalid node type: "@ + s@,
            },
    {
        NodeType::from_str(s)
    }
}

impl NodeType {
    pub fn as_str(&self) -> (r: &'static str)
        ensures
            r@ == node_type_name(*self),
    {
        match self {
            NodeType::Project => "project",
            NodeType::Phase => "phase",
            NodeType::Task => "task",
        }
    }

    /// Parses a stored name; any other text is refused with
    /// "invalid node type: <text>".
    pub fn from_str(s: &str) -> (r: Result<NodeType, String>)
        ensures
            match parse_node_type(s@) {
                Some(t) => r == Ok::<NodeType, String>(t),
                None => r matches Err(msg) && msg@ == "invalid node type: "@ + s@,
            },
    {
        if str_eq(s, "project") {
            Ok(NodeType::Project)
        } else if str_eq(s, "phase") {
            Ok(NodeType::Phase)
        } else if str_eq(s, "task") {
            Ok(NodeType::Task)
        } else {
            Err(join2("invalid node type: ", s))
        }
    }

    /// Returns the allowed child type for this node type (if any)
    pub fn child_type(&self) -> (r: Option<NodeType>)
        ensures
            r == spec_child_type(*self),
    {
        match self {
            NodeType::Project => Some(NodeType::Phase),
            NodeType::Phase => Some(NodeType::Task),
            NodeType::Task => None,
        }
    }
}

/// Where a node stands in its life.
#[derive(Debug, Clone, Copy, PartialEq, Eq, Structural)]
pub enum NodeStatus {
    Active,
    Completed,
    Archived,
}

pub open spec fn node_status_name(s: NodeStatus) -> Seq<char> {
    match s {
        NodeStatus::Active => "active"@,
        NodeStatus::Completed => "completed"@,
        NodeStatus::Archived => "archived"@,
    }
}

pub open spec fn parse_node_status(s: Seq<char>) -> Option<NodeStatus> {
    if s == "active"@ {
        Some(NodeStatus::Active)
    } else if s == "completed"@ {
        Some(NodeStatus::Completed)
    } else if s == "archived"@ {
        Some(NodeStatus::Archived)
    } else {
        None
    }
}

impl std::str::FromStr for NodeStatus {
    type Err = String;

    /// The same parse as the inherent `NodeStatus::from_str`.
    fn from_str(s: &str) -> (r: Result<NodeStatus, String>)
        ensures
            match parse_node_status(s@) {
                Some(t) => r == Ok::<NodeStatus, String>(t),
                None => r matches Err(msg) && msg@ == "invalid status: "@ + s@,
            },
    {
        NodeStatus::from_str(s)
    }
}

impl NodeStatus {
    pub fn as_str(&self) -> (r: &'static str)
        ensures
            r@ == node_status_name(*self),
    {
        match self {
            NodeStatus::Active => "active",
            NodeStatus::Completed => "completed",
            NodeStatus::Archived => "archived",
        }
    }

    /// Parses a stored name; any other text is refused with
    /// "invalid status: <text>".
    pub fn from_str(s: &str) -> (r: Result<NodeStatus, String>)
        ensures
            match parse_node_status(s@) {
                Some(t) => r == Ok::<NodeStatus, String>(t),
                None => r matches Err(msg) && msg@ == "invalid status: "@ + s@,
            },
    {
        if str_eq(s, "active") {
            Ok(NodeStatus::Active)
        } else if str_eq(s, "completed") {
            Ok(NodeStatus::Completed)
        } else if str_eq(s, "archived") {
            Ok(NodeStatus::Archived)
        } else {
            Err(join2("invalid status: ", s))
        }
    }
}

/// The three kinds of link between nodes. `Parent` runs from the container to
/// the contained node, `Blocks` from the node that must finish first, and
/// `Related` is a soft link read in both directions.
#[derive(Debug, Clone, Copy, PartialEq, Eq, Structural)]
pub enum EdgeType {
    Parent,
    Blocks,
    Related,
}

pub open spec fn edge_type_name(e: EdgeType) -> Seq<char> {
    match e {
        EdgeType::Parent => "parent"@,
        EdgeType::Blocks => "blocks"@,
        EdgeType::Related => "related"@,
    }
}

pub open spec fn parse_edge_type(s: Seq<char>) -> Option<EdgeType> {
    if s == "parent"@ {
        Some(EdgeType::Parent)
    } else if s == "blocks"@ {
        Some(EdgeType::Blocks)
    } else if s == "related"@ {
        Some(EdgeType::Related)
    } else {
        None
    }
}

impl std::str::FromStr for EdgeType {
    type Err = String;

    /// The same parse as the inherent `EdgeType::from_str`.
    fn from_str(s: &str) -> (r: Result<EdgeType, String>)
        ensures
            match parse_edge_type(s@) {
                Some(t) => r == Ok::<EdgeType, String>(t),
                None => r matches Err(msg) && msg@ == "invalid edge type: "@ + s@,
            },
    {
        EdgeType::from_str(s)
    }
}

impl EdgeType {
    pub fn as_str(&self) -> (r: &'static str)
        ensures
            r@ == edge_type_name(*self),
    {
        match self {
            EdgeType::Parent => "parent",
            EdgeType::Blocks => "blocks",
            EdgeType::Related => "related",
        }
    }

    /// Parses a stored name; any other text is refused with
    /// "invalid edge type: <text>".
    pub fn from_str(s: &str) -> (r: Result<EdgeType, String>)
        ensures
            match parse_edge_type(s@) {
                Some(t) => r == Ok::<EdgeType, String>(t),
                None => r matches Err(msg) && msg@ == "invalid edge type: "@ + s@,
            },
    {
        if str_eq(s, "parent") {
            Ok(EdgeType::Parent)
        } else if str_eq(s, "blocks") {
            Ok(EdgeType::Blocks)
        } else if str_eq(s, "related") {
            Ok(EdgeType::Related)
        } else {
            Err(join2("invalid edge type: ", s))
        }
    }
}

/// A project, phase or task.
#[derive(Debug, Clone)]
pub struct Node {
    pub id: String,
    pub node_type: NodeType,
    pub title: String,
    pub description: String,
    pub status: NodeStatus,
    pub sort_order: i32,
    pub created_at: String,
    pub updated_at: String,
}

/// A node with its strings taken as character sequences.
pub struct NodeView {
    pub id: Seq<char>,
    pub node_type: NodeType,
    pub title: Seq<char>,
    pub description: Seq<char>,
    pub status: NodeStatus,
    pub sort_order: i32,
    pub created_at: Seq<char>,
    pub updated_at: Seq<char>,
}

impl View for Node {
    type V = NodeView;

    open spec fn view(&self) -> NodeView {
        NodeView {
            id: self.id@,
            node_type: self.node_type,
            title: self.title@,
            description: self.description@,
            status: self.status,
            sort_order: self.sort_order,
            created_at: self.created_at@,
            updated_at: self.updated_at@,
        }
    }
}

impl Node {
    /// A field-by-field copy.
    pub fn copy(&self) -> (r: Node)
        ensures
            r@ == self@,
    {
        Node {
            id: self.id.clone(),
            node_type: self.node_type,
            title: self.title.clone(),
            description: self.description.clone(),
            status: self.status,
            sort_order: self.sort_order,
            created_at: self.created_at.clone(),
            updated_at: self.updated_at.clone(),
        }
    }
}

/// A typed link from `source_id` to `target_id`.
#[derive(Debug, Clone)]
pub struct Edge {
    pub id: String,
    pub source_id: String,
    pub target_id: String,
    pub edge_type: EdgeType,
    pub created_at: String,
}

pub struct EdgeView {
    pub id: Seq<char>,
    pub source_id: Seq<char>,
    pub target_id: Seq<char>,
    pub edge_type: EdgeType,
    pub created_at: Seq<char>,
}

impl View for Edge {
    type V = EdgeView;

    open spec fn view(&self) -> EdgeView {
        EdgeView {
            id: self.id@,
            source_id: self.source_id@,
            target_id: self.target_id@,
            edge_type: self.edge_type,
            created_at: self.created_at@,
        }
    }
}

impl Edge {
    pub fn copy(&self) -> (r: Edge)
        ensures
            r@ == self@,
    {
        Edge {
            id: self.id.clone(),
            source_id: self.source_id.clone(),
            target_id: self.target_id.clone(),
            edge_type: self.edge_type,
            created_at: self.created_at.clone(),
        }
    }
}

/// A named label that nodes can carry.
#[derive(Debug, Clone)]
pub struct Tag {
    pub id: String,
    pub name: String,
    pub color: String,
}

pub struct TagView {
    pub id: Seq<char>,
    pub name: Seq<char>,
    pub color: Seq<char>,
}

impl View for Tag {
    type V = TagView;

    open spec fn view(&self) -> TagView {
        TagView { id: self.id@, name: self.name@, color: self.color@ }
    }
}

impl Tag {
    pub fn copy(&self) -> (r: Tag)
        ensures
            r@ == self@,
    {
        Tag { id: self.id.clone(), name: self.name.clone(), color: self.color.clone() }
    }
}

/// One recorded change of a node's status.
#[derive(Debug, Clone)]
pub struct StatusHistoryEntry {
    pub id: String,
    pub node_id: String,
    pub old_status: String,
    pub new_status: String,
    pub changed_at: String,
}

pub struct HistoryView {
    pub id: Seq<char>,
    pub node_id: Seq<char>,
    pub old_status: Seq<char>,
    pub new_status: Seq<char>,
    pub changed_at: Seq<char>,
}

impl View for StatusHistoryEntry {
    type V = HistoryView;

    open spec fn view(&self) -> HistoryView {
        HistoryView {
            id: self.id@,
            node_id: self.node_id@,
            old_status: self.old_status@,
            new_status: self.new_status@,
            changed_at: self.changed_at@,
        }
    }
}

/// How many of a node's children are completed.
#[derive(Debug, Clone, Copy)]
pub struct Progress {
    pub completed: usize,
    pub total: usize,
}

impl View for Progress {
    type V = (nat, nat);

    open spec fn view(&self) -> (nat, nat) {
        (self.completed as nat, self.total as nat)
    }
}

/// A node with its computed relationships
#[derive(Debug, Clone)]
pub struct NodeDetail {
    pub node: Node,
    pub children: Vec<Node>,
    pub tags: Vec<Tag>,
    pub blocks: Vec<Edge>,
    pub blocked_by: Vec<Edge>,
    pub related: Vec<Edge>,
    pub progress: Option<Progress>,
}

pub struct NodeDetailView {
    pub node: NodeView,
    pub children: Seq<NodeView>,
    pub tags: Seq<TagView>,
    pub blocks: Seq<EdgeView>,
    pub blocked_by: Seq<EdgeView>,
    pub related: Seq<EdgeView>,
    pub progress: Option<(nat, nat)>,
}

impl View for NodeDetail {
    type V = NodeDetailView;

    open spec fn view(&self) -> NodeDetailView {
        NodeDetailView {
            node: self.node@,
            children: views(self.children@),
            tags: views(self.tags@),
            blocks: views(self.blocks@),
            blocked_by: views(self.blocked_by@),
            related: views(self.related@),
            progress: match self.progress {
                Some(p) => Some(p@),
                None => None,
            },
        }
    }
}

/// Every node type parses back from its stored name.
pub proof fn lemma_node_type_roundtrip(t: NodeType)
    ensures
        parse_node_type(node_type_name(t)) == Some(t),
{
    reveal_strlit("project");
    reveal_strlit("phase");
    reveal_strlit("task");
    assert("project"@.len() == 7 && "phase"@.len() == 5 && "task"@.len() == 4);
}

/// Every status parses back from its stored name.
pub proof fn lemma_node_status_roundtrip(s: NodeStatus)
    ensures
        parse_node_status(node_status_name(s)) == Some(s),
{
    reveal_strlit("active");
    reveal_strlit("completed");
    reveal_strlit("archived");
    assert("active"@.len() == 6 && "completed"@.len() == 9 && "archived"@.len() == 8);
}

/// Every edge type parses back from its stored name.
pub proof fn lemma_edge_type_roundtrip(e: EdgeType)
    ensures
        parse_edge_type(edge_type_name(e)) == Some(e),
{
    reveal_strlit("parent");
    reveal_strlit("blocks");
    reveal_strlit("related");
    assert("parent"@.len() == 6 && "blocks"@.len() == 6 && "related"@.len() == 7);
    assert("parent"@[0] != "blocks"@[0]);
}

/// The hierarchy has three levels at most: a project holds phases, a phase
/// holds tasks, a task holds nothing, and nothing holds a project.
pub proof fn lemma_hierarchy_depth(t: NodeType)
    ensures
        spec_child_type(t) != Some(NodeType::Project),
        spec_child_type(t) matches Some(c) ==> spec_child_type(c) matches Some(g) ==> spec_child_type(g) is None,
{
}

} // verus!
