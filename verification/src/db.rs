//! The store: five tables held as plain rows, and the error type of every
//! query on them.
use vstd::prelude::*;
pub use crate::models::views;
use crate::laws::wf;
use crate::models::{Edge, EdgeView, Node, NodeView, StatusHistoryEntry, HistoryView, Tag, TagView};

verus! {

/// What a query can fail with: an error of the database engine (such as a
/// violated uniqueness constraint), an I/O error, or a message of the
/// library's own rules.
#[derive(Debug, Clone)]
pub enum DbError {
    Sqlite(String),
    Io(String),
    Custom(String),
}

pub enum DbErrorView {
    Sqlite(Seq<char>),
    Io(Seq<char>),
    Custom(Seq<char>),
}

impl View for DbError {
    type V = DbErrorView;

    open spec fn view(&self) -> DbErrorView {
        match self {
            DbError::Sqlite(m) => DbErrorView::Sqlite(m@),
            DbError::Io(m) => DbErrorView::Io(m@),
            DbError::Custom(m) => DbErrorView::Custom(m@),
        }
    }
}

impl DbError {
    /// The error's message: the engine's and I/O messages are prefixed with
    /// their kind, the library's own are given as they are.
    pub fn message(&self) -> (r: String)
        ensures
            r@ == match self@ {
                DbErrorView::Sqlite(m) => "sqlite error: "@ + m,
                DbErrorView::Io(m) => "io error: "@ + m,
                DbErrorView::Custom(m) => m,
            },
    {
        match self {
            DbError::Sqlite(m) => crate::text::join2("sqlite error: ", m.as_str()),
            DbError::Io(m) => crate::text::join2("io error: ", m.as_str()),
            DbError::Custom(m) => m.clone(),
        }
    }
}

pub type DbResult<T> = Result<T, DbError>;

/// The view of a query's outcome.
pub open spec fn res_view<T: View>(r: Result<T, DbError>) -> Result<T::V, DbErrorView> {
    match r {
        Ok(x) => Ok(x@),
        Err(e) => Err(e@),
    }
}

/// The view of an outcome that carries no value.
pub open spec fn unit_view(r: Result<(), DbError>) -> Result<(), DbErrorView> {
    match r {
        Ok(_) => Ok(()),
        Err(e) => Err(e@),
    }
}

/// A row of the link table between nodes and tags.
#[derive(Debug, Clone)]
pub struct NodeTag {
    pub node_id: String,
    pub tag_id: String,
}

impl View for NodeTag {
    type V = (Seq<char>, Seq<char>);

    open spec fn view(&self) -> (Seq<char>, Seq<char>) {
        (self.node_id@, self.tag_id@)
    }
}

/// The five tables: nodes, edges, tags, the node-tag links and the status
/// history, as plain rows. Rows keep the order in which they were inserted.
pub struct Tables {
    pub nodes: Vec<Node>,
    pub edges: Vec<Edge>,
    pub tags: Vec<Tag>,
    pub node_tags: Vec<NodeTag>,
    pub history: Vec<StatusHistoryEntry>,
}

#[verifier::ext_equal]
pub struct StoreView {
    pub nodes: Seq<NodeView>,
    pub edges: Seq<EdgeView>,
    pub tags: Seq<TagView>,
    pub node_tags: Seq<(Seq<char>, Seq<char>)>,
    pub history: Seq<HistoryView>,
}

impl View for Tables {
    type V = StoreView;

    open spec fn view(&self) -> StoreView {
        StoreView {
            nodes: views(self.nodes@),
            edges: views(self.edges@),
            tags: views(self.tags@),
            node_tags: views(self.node_tags@),
            history: views(self.history@),
        }
    }
}

impl Tables {
    /// Five empty tables.
    pub fn new() -> (r: Tables)
        ensures
            r@.nodes.len() == 0,
            r@.edges.len() == 0,
            r@.tags.len() == 0,
            r@.node_tags.len() == 0,
            r@.history.len() == 0,
    {
        Tables {
            nodes: Vec::new(),
            edges: Vec::new(),
            tags: Vec::new(),
            node_tags: Vec::new(),
            history: Vec::new(),
        }
    }
}

/// The store: five tables that always meet the schema's constraints
/// (`wf`): keys and unique columns are unique, and every reference names an
/// existing row.
pub struct Store {
    tables: Tables,
}

impl Store {
    #[verifier::type_invariant]
    spec fn meets_schema(self) -> bool {
        wf(self.tables@)
    }
}

impl View for Store {
    type V = StoreView;

    closed spec fn view(&self) -> StoreView {
        self.tables@
    }
}

impl Store {
    /// An empty store: every table exists and holds no row.
    pub fn new() -> (r: Store)
        ensures
            r@.nodes.len() == 0,
            r@.edges.len() == 0,
            r@.tags.len() == 0,
            r@.node_tags.len() == 0,
            r@.history.len() == 0,
    {
        let t = Tables::new();
        proof {
            assert(wf(t@));
        }
        Store { tables: t }
    }

    /// The store's tables, to read; they meet the schema's constraints.
    pub fn tables(&self) -> (r: &Tables)
        ensures
            r@ == self@,
            wf(r@),
    {
        proof {
            use_type_invariant(self);
        }
        &self.tables
    }

    /// A store holding `t`, when `t` meets the schema's constraints; else
    /// "stored rows break the schema's constraints".
    pub fn from_tables(t: Tables) -> (r: DbResult<Store>)
        ensures
            r is Ok <==> wf(t@),
            r matches Ok(s) ==> s@ == t@,
            r matches Err(e) ==> e@ == DbErrorView::Custom(
                "stored rows break the schema's constraints"@,
            ),
    {
        if crate::schema_check::meets_schema(&t) {
            Ok(Store { tables: t })
        } else {
            Err(DbError::Custom(crate::text::owned("stored rows break the schema's constraints")))
        }
    }

    /// Hands the tables out, leaving the store empty.
    pub(crate) fn take(&mut self) -> (t: Tables)
        ensures
            t@ == old(self)@,
            wf(t@),
    {
        proof {
            use_type_invariant(&*self);
        }
        let mut t = Tables::new();
        proof {
            assert(wf(t@));
        }
        std::mem::swap(&mut t, &mut self.tables);
        t
    }

    /// Puts tables that meet the constraints into the store.
    pub(crate) fn put(&mut self, t: Tables)
        requires
            wf(t@),
        ensures
            final(self)@ == t@,
    {
        self.tables = t;
    }
}

} // verus!
