//! The queries over plain tables: creating, reading, updating and deleting
//! nodes, linking them, tagging them, and reading a node with its
//! relationships. Each query's outcome is stated by a spec function over the
//! tables' view (`spec_*`). `queries` offers them on a `Store`.
use vstd::prelude::*;
use crate::db::{res_view, unit_view, views, DbError, DbErrorView, DbResult, NodeTag, Tables, StoreView};
use crate::graph::{collect_reachable, has_edge, reachable, strs};
use crate::models::{
    node_status_name, node_type_name, spec_child_type, Edge, EdgeType, EdgeView,
    HistoryView, Node, NodeDetail, NodeDetailView, NodeStatus, NodeType, NodeView, Progress, StatusHistoryEntry,
    Tag, TagView,
};
use crate::order::{ranked, sort_ranked};
use crate::rows::filter_rows;
use crate::templates::{get_template, template_text};
use crate::text::{eq_ignore_ascii_case, owned, str_eq, str_eq_ignore_ascii_case};

verus! {

// ---------------------------------------------------------------------------
// Lookups
// ---------------------------------------------------------------------------

pub open spec fn opt_str(o: Option<&str>) -> Option<Seq<char>> {
    match o {
        Some(s) => Some(s@),
        None => None,
    }
}

/// Some node has id `id`.
pub open spec fn has_node(ns: Seq<NodeView>, id: Seq<char>) -> bool {
    exists|i: int| 0 <= i < ns.len() && #[trigger] ns[i].id == id
}

/// `i` is the first row with id `id`.
pub open spec fn is_first_node(ns: Seq<NodeView>, id: Seq<char>, i: int) -> bool {
    &&& 0 <= i < ns.len()
    &&& ns[i].id == id
    &&& forall|j: int| 0 <= j < i ==> #[trigger] ns[j].id != id
}

/// The node that `SELECT ... WHERE id = ?` returns.
pub open spec fn lookup_node(ns: Seq<NodeView>, id: Seq<char>) -> Option<NodeView> {
    if has_node(ns, id) {
        Some(ns[choose|i: int| is_first_node(ns, id, i)])
    } else {
        None
    }
}

pub proof fn lemma_first_node(ns: Seq<NodeView>, id: Seq<char>, i: int)
    requires
        is_first_node(ns, id, i),
    ensures
        lookup_node(ns, id) == Some(ns[i]),
{
    assert(has_node(ns, id));
    let k = choose|k: int| is_first_node(ns, id, k);
    if k < i {
        assert(ns[k].id != id);
    }
    if k > i {
        assert(ns[i].id != id);
    }
}

/// Whenever some row has id `id`, there is a first such row.
pub proof fn lemma_has_first_node(ns: Seq<NodeView>, id: Seq<char>, k: int) -> (i: int)
    requires
        0 <= k < ns.len(),
        ns[k].id == id,
    ensures
        is_first_node(ns, id, i),
        lookup_node(ns, id) == Some(ns[i]),
    decreases k,
{
    if exists|j: int| 0 <= j < k && #[trigger] ns[j].id == id {
        let j = choose|j: int| 0 <= j < k && #[trigger] ns[j].id == id;
        lemma_has_first_node(ns, id, j)
    } else {
        lemma_first_node(ns, id, k);
        k
    }
}

/// Searches for `id`, first row first.
pub(crate) fn find_node(nodes: &Vec<Node>, id: &str) -> (r: Option<usize>)
    ensures
        match r {
            Some(i) => is_first_node(views(nodes@), id@, i as int),
            None => !has_node(views(nodes@), id@),
        },
{
    let ghost ns = views(nodes@);
    let mut i: usize = 0;
    while i < nodes.len()
        invariant
            ns == views(nodes@),
            i <= nodes.len(),
            forall|j: int| 0 <= j < i ==> #[trigger] ns[j].id != id@,
        decreases nodes.len() - i,
    {
        if str_eq(nodes[i].id.as_str(), id) {
            return Some(i);
        }
        i = i + 1;
    }
    None
}

pub open spec fn msg_node_not_found(id: Seq<char>) -> Seq<char> {
    "node not found: "@ + id
}

pub open spec fn spec_get_node(db: StoreView, id: Seq<char>) -> Result<NodeView, DbErrorView> {
    match lookup_node(db.nodes, id) {
        Some(n) => Ok(n),
        None => Err(DbErrorView::Custom(msg_node_not_found(id))),
    }
}

/// The node with id `id`, or "node not found: <id>".
pub(crate) fn get_node(conn: &Tables, id: &str) -> (r: DbResult<Node>)
    ensures
        res_view(r) == spec_get_node(conn@, id@),
{
    match find_node(&conn.nodes, id) {
        Some(i) => {
            proof {
                lemma_first_node(conn@.nodes, id@, i as int);
            }
            Ok(conn.nodes[i].copy())
        },
        None => Err(DbError::Custom(crate::text::join2("node not found: ", id))),
    }
}

/// Some edge has id `id`.
pub open spec fn has_edge_id(es: Seq<EdgeView>, id: Seq<char>) -> bool {
    exists|i: int| 0 <= i < es.len() && #[trigger] es[i].id == id
}

fn find_edge_id(edges: &Vec<Edge>, id: &str) -> (r: bool)
    ensures
        r == has_edge_id(views(edges@), id@),
{
    let ghost es = views(edges@);
    let mut i: usize = 0;
    while i < edges.len()
        invariant
            es == views(edges@),
            i <= edges.len(),
            forall|j: int| 0 <= j < i ==> #[trigger] es[j].id != id@,
        decreases edges.len() - i,
    {
        if str_eq(edges[i].id.as_str(), id) {
            assert(es[i as int].id == id@);
            return true;
        }
        i = i + 1;
    }
    false
}

fn find_edge(edges: &Vec<Edge>, et: EdgeType, source: &str, target: &str) -> (r: bool)
    ensures
        r == has_edge(views(edges@), et, source@, target@),
{
    let ghost es = views(edges@);
    let mut i: usize = 0;
    while i < edges.len()
        invariant
            es == views(edges@),
            i <= edges.len(),
            forall|j: int|
                0 <= j < i ==> !(#[trigger] es[j].edge_type == et && es[j].source_id == source@
                    && es[j].target_id == target@),
        decreases edges.len() - i,
    {
        let e = &edges[i];
        if e.edge_type == et && str_eq(e.source_id.as_str(), source) && str_eq(
            e.target_id.as_str(),
            target,
        ) {
            assert(es[i as int].edge_type == et);
            return true;
        }
        i = i + 1;
    }
    false
}

// ---------------------------------------------------------------------------
// Creating nodes
// ---------------------------------------------------------------------------

pub open spec fn msg_no_children(parent: NodeType) -> Seq<char> {
    node_type_name(parent) + " nodes cannot have children"@
}

pub open spec fn msg_wrong_child(parent: NodeType, expected: NodeType, got: NodeType) -> Seq<char> {
    node_type_name(parent) + " can only contain "@ + node_type_name(expected)
        + " children, not "@ + node_type_name(got)
}

/// The row of a new node: its type's template as description, active,
/// first in order, created and updated `now`.
pub open spec fn new_node_view(
    id: Seq<char>,
    node_type: NodeType,
    title: Seq<char>,
    now: Seq<char>,
) -> NodeView {
    NodeView {
        id,
        node_type,
        title,
        description: template_text(node_type),
        status: NodeStatus::Active,
        sort_order: 0,
        created_at: now,
        updated_at: now,
    }
}

/// The hierarchy rule: a child must be of the one type its parent may hold.
pub open spec fn parent_check(db: StoreView, node_type: NodeType, parent: Option<Seq<char>>) -> Result<
    (),
    DbErrorView,
> {
    match parent {
        None => Ok(()),
        Some(pid) => match lookup_node(db.nodes, pid) {
            None => Err(DbErrorView::Custom(msg_node_not_found(pid))),
            Some(p) => match spec_child_type(p.node_type) {
                None => Err(DbErrorView::Custom(msg_no_children(p.node_type))),
                Some(c) => if c != node_type {
                    Err(DbErrorView::Custom(msg_wrong_child(p.node_type, c, node_type)))
                } else {
                    Ok(())
                },
            },
        },
    }
}

/// What `create_node` does with the identifiers `id` (node) and `edge_id`
/// (parent link) and the time `now`: the new store and the result.
pub open spec fn spec_create_node(
    db: StoreView,
    node_type: NodeType,
    title: Seq<char>,
    parent: Option<Seq<char>>,
    id: Seq<char>,
    edge_id: Seq<char>,
    now: Seq<char>,
) -> (StoreView, Result<NodeView, DbErrorView>) {
    let node = new_node_view(id, node_type, title, now);
    match parent_check(db, node_type, parent) {
        Err(e) => (db, Err(e)),
        Ok(_) => if has_node(db.nodes, id) {
            (db, Err(DbErrorView::Sqlite("UNIQUE constraint failed: nodes.id"@)))
        } else {
            match parent {
                None => (StoreView { nodes: db.nodes.push(node), ..db }, Ok(node)),
                Some(pid) => if has_edge_id(db.edges, edge_id) {
                    (db, Err(DbErrorView::Sqlite("UNIQUE constraint failed: edges.id"@)))
                } else if has_edge(db.edges, EdgeType::Parent, pid, id) {
                    (
                        db,
                        Err(
                            DbErrorView::Sqlite(
                                "UNIQUE constraint failed: edges.source_id, edges.target_id, edges.edge_type"@,
                            ),
                        ),
                    )
                } else {
                    (
                        StoreView {
                            nodes: db.nodes.push(node),
                            edges: db.edges.push(
                                EdgeView {
                                    id: edge_id,
                                    source_id: pid,
                                    target_id: id,
                                    edge_type: EdgeType::Parent,
                                    created_at: now,
                                },
                            ),
                            ..db
                        },
                        Ok(node),
                    )
                },
            }
        },
    }
}

/// Checks the hierarchy rule for a new node under `parent_id`.
fn check_parent(conn: &Tables, node_type: NodeType, parent_id: Option<&str>) -> (r: DbResult<()>)
    ensures
        res_view(r) == parent_check(conn@, node_type, opt_str(parent_id)),
{
    match parent_id {
        None => Ok(()),
        Some(pid) => {
            let parent = get_node(conn, pid)?;
            match parent.node_type.child_type() {
                None => {
                    let mut m = owned(parent.node_type.as_str());
                    m.append(" nodes cannot have children");
                    Err(DbError::Custom(m))
                },
                Some(expected) => {
                    if expected != node_type {
                        let mut m = owned(parent.node_type.as_str());
                        m.append(" can only contain ");
                        m.append(expected.as_str());
                        m.append(" children, not ");
                        m.append(node_type.as_str());
                        Err(DbError::Custom(m))
                    } else {
                        Ok(())
                    }
                },
            }
        },
    }
}

/// Creates a node with the identifiers and the time given: the node gets
/// `id`, its parent link (if `parent_id` is given) gets `edge_id`, and both
/// are stamped `now`. Nothing is written unless all of it can be.
pub(crate) fn create_node_with(
    conn: &mut Tables,
    id: &str,
    edge_id: &str,
    now: &str,
    node_type: NodeType,
    title: &str,
    parent_id: Option<&str>,
) -> (r: DbResult<Node>)
    ensures
        final(conn)@ == spec_create_node(
            old(conn)@,
            node_type,
            title@,
            opt_str(parent_id),
            id@,
            edge_id@,
            now@,
        ).0,
        res_view(r) == spec_create_node(
            old(conn)@,
            node_type,
            title@,
            opt_str(parent_id),
            id@,
            edge_id@,
            now@,
        ).1,
{
    check_parent(conn, node_type, parent_id)?;
    if find_node(&conn.nodes, id).is_some() {
        return Err(DbError::Sqlite(owned("UNIQUE constraint failed: nodes.id")));
    }
    if let Some(pid) = parent_id {
        if find_edge_id(&conn.edges, edge_id) {
            return Err(DbError::Sqlite(owned("UNIQUE constraint failed: edges.id")));
        }
        if find_edge(&conn.edges, EdgeType::Parent, pid, id) {
            return Err(
                DbError::Sqlite(
                    owned(
                        "UNIQUE constraint failed: edges.source_id, edges.target_id, edges.edge_type",
                    ),
                ),
            );
        }
    }
    let node = Node {
        id: owned(id),
        node_type,
        title: owned(title),
        description: owned(get_template(node_type)),
        status: NodeStatus::Active,
        sort_order: 0,
        created_at: owned(now),
        updated_at: owned(now),
    };
    let ghost old_db = conn@;
    conn.nodes.push(node.copy());
    if let Some(pid) = parent_id {
        conn.edges.push(
            Edge {
                id: owned(edge_id),
                source_id: owned(pid),
                target_id: owned(id),
                edge_type: EdgeType::Parent,
                created_at: owned(now),
            },
        );
    }
    proof {
        assert(views(conn.nodes@) =~= old_db.nodes.push(node@));
        if parent_id.is_some() {
            assert(views(conn.edges@) =~= old_db.edges.push(conn.edges@.last()@));
        }
    }
    Ok(node)
}

// ---------------------------------------------------------------------------
// Updating nodes
// ---------------------------------------------------------------------------

/// The fields of `existing` with each given field replaced, updated `now`.
pub open spec fn updated_fields(
    existing: NodeView,
    title: Option<Seq<char>>,
    description: Option<Seq<char>>,
    status: Option<NodeStatus>,
    sort_order: Option<i32>,
    now: Seq<char>,
) -> NodeView {
    NodeView {
        title: match title {
            Some(t) => t,
            None => existing.title,
        },
        description: match description {
            Some(d) => d,
            None => existing.description,
        },
        status: match status {
            Some(s) => s,
            None => existing.status,
        },
        sort_order: match sort_order {
            Some(o) => o,
            None => existing.sort_order,
        },
        updated_at: now,
        ..existing
    }
}

/// Row `n` after `UPDATE nodes SET title, description, status, sort_order,
/// updated_at` with the values of `u`.
pub open spec fn apply_update(n: NodeView, u: NodeView) -> NodeView {
    NodeView {
        title: u.title,
        description: u.description,
        status: u.status,
        sort_order: u.sort_order,
        updated_at: u.updated_at,
        ..n
    }
}

pub open spec fn update_rows(ns: Seq<NodeView>, id: Seq<char>, u: NodeView) -> Seq<NodeView> {
    ns.map_values(|n: NodeView| if n.id == id { apply_update(n, u) } else { n })
}

/// Some history entry has id `id`.
pub open spec fn has_history_id(hs: Seq<HistoryView>, id: Seq<char>) -> bool {
    exists|i: int| 0 <= i < hs.len() && #[trigger] hs[i].id == id
}

/// What `update_node` does with the time `now` and, should the status change,
/// the history entry's id `hist_id`. The node's row is written first; the
/// history entry after it, so a clash of `hist_id` leaves the row written.
pub open spec fn spec_update_node(
    db: StoreView,
    id: Seq<char>,
    title: Option<Seq<char>>,
    description: Option<Seq<char>>,
    status: Option<NodeStatus>,
    sort_order: Option<i32>,
    now: Seq<char>,
    hist_id: Seq<char>,
) -> (StoreView, Result<NodeView, DbErrorView>) {
    match lookup_node(db.nodes, id) {
        None => (db, Err(DbErrorView::Custom(msg_node_not_found(id)))),
        Some(existing) => {
            let u = updated_fields(existing, title, description, status, sort_order, now);
            let db1 = StoreView { nodes: update_rows(db.nodes, id, u), ..db };
            if u.status != existing.status {
                if has_history_id(db.history, hist_id) {
                    (db1, Err(DbErrorView::Sqlite("UNIQUE constraint failed: status_history.id"@)))
                } else {
                    (
                        StoreView {
                            history: db.history.push(
                                HistoryView {
                                    id: hist_id,
                                    node_id: id,
                                    old_status: node_status_name(existing.status),
                                    new_status: node_status_name(u.status),
                                    changed_at: now,
                                },
                            ),
                            ..db1
                        },
                        Ok(u),
                    )
                }
            } else {
                (db1, Ok(u))
            }
        },
    }
}

fn find_history_id(history: &Vec<StatusHistoryEntry>, id: &str) -> (r: bool)
    ensures
        r == has_history_id(views(history@), id@),
{
    let ghost hs = views(history@);
    let mut i: usize = 0;
    while i < history.len()
        invariant
            hs == views(history@),
            i <= history.len(),
            forall|j: int| 0 <= j < i ==> #[trigger] hs[j].id != id@,
        decreases history.len() - i,
    {
        if str_eq(history[i].id.as_str(), id) {
            assert(hs[i as int].id == id@);
            return true;
        }
        i = i + 1;
    }
    false
}

fn opt_owned(o: Option<&str>, default: &String) -> (r: String)
    ensures
        r@ == match opt_str(o) {
            Some(t) => t,
            None => default@,
        },
{
    match o {
        Some(t) => owned(t),
        None => default.clone(),
    }
}

/// Updates the fields given of node `id`, stamps it `now`, and logs a status
/// change under `hist_id` when the status differs from the stored one.
pub(crate) fn update_node_with(
    conn: &mut Tables,
    id: &str,
    title: Option<&str>,
    description: Option<&str>,
    status: Option<NodeStatus>,
    sort_order: Option<i32>,
    now: &str,
    hist_id: &str,
) -> (r: DbResult<Node>)
    ensures
        final(conn)@ == spec_update_node(
            old(conn)@,
            id@,
            opt_str(title),
            opt_str(description),
            status,
            sort_order,
            now@,
            hist_id@,
        ).0,
        res_view(r) == spec_update_node(
            old(conn)@,
            id@,
            opt_str(title),
            opt_str(description),
            status,
            sort_order,
            now@,
            hist_id@,
        ).1,
{
    let existing = get_node(conn, id)?;
    let new_status = match status {
        Some(s) => s,
        None => existing.status,
    };
    let new_order = match sort_order {
        Some(o) => o,
        None => existing.sort_order,
    };
    let updated = Node {
        id: existing.id.clone(),
        node_type: existing.node_type,
        title: opt_owned(title, &existing.title),
        description: opt_owned(description, &existing.description),
        status: new_status,
        sort_order: new_order,
        created_at: existing.created_at.clone(),
        updated_at: owned(now),
    };
    let ghost u = updated@;
    let ghost old_db = conn@;
    assert(u == updated_fields(
        existing@,
        opt_str(title),
        opt_str(description),
        status,
        sort_order,
        now@,
    ));
    let mut i: usize = 0;
    while i < conn.nodes.len()
        invariant
            i <= conn.nodes.len(),
            conn.nodes.len() == old_db.nodes.len(),
            conn.edges@ == old(conn).edges@,
            conn.tags@ == old(conn).tags@,
            conn.node_tags@ == old(conn).node_tags@,
            conn.history@ == old(conn).history@,
            old_db == old(conn)@,
            u == updated@,
            forall|j: int|
                0 <= j < i ==> #[trigger] views(conn.nodes@)[j] == (if old_db.nodes[j].id == id@ {
                    apply_update(old_db.nodes[j], u)
                } else {
                    old_db.nodes[j]
                }),
            forall|j: int| i <= j < conn.nodes.len() ==> #[trigger] views(conn.nodes@)[j] == old_db.nodes[j],
        decreases conn.nodes.len() - i,
    {
        let ghost pre = conn.nodes@;
        assert(views(pre)[i as int] == old_db.nodes[i as int]);
        if str_eq(conn.nodes[i].id.as_str(), id) {
            let mut n = conn.nodes[i].copy();
            n.title = updated.title.clone();
            n.description = updated.description.clone();
            n.status = updated.status;
            n.sort_order = updated.sort_order;
            n.updated_at = updated.updated_at.clone();
            conn.nodes.set(i, n);
            assert(views(conn.nodes@)[i as int] == apply_update(old_db.nodes[i as int], u));
        }
        assert forall|j: int| 0 <= j < conn.nodes.len() && j != i implies #[trigger] views(
            conn.nodes@,
        )[j] == views(pre)[j] by {
            assert(conn.nodes@[j] == pre[j]);
        }
        i = i + 1;
    }
    proof {
        assert(views(conn.nodes@) =~= update_rows(old_db.nodes, id@, u));
    }
    if new_status != existing.status {
        if find_history_id(&conn.history, hist_id) {
            return Err(DbError::Sqlite(owned("UNIQUE constraint failed: status_history.id")));
        }
        let entry = StatusHistoryEntry {
            id: owned(hist_id),
            node_id: owned(id),
            old_status: owned(existing.status.as_str()),
            new_status: owned(new_status.as_str()),
            changed_at: owned(now),
        };
        let ghost before = views(conn.history@);
        conn.history.push(entry);
        proof {
            assert(views(conn.history@) =~= before.push(conn.history@.last()@));
        }
    }
    Ok(updated)
}

// ---------------------------------------------------------------------------
// Listing nodes
// ---------------------------------------------------------------------------

/// The node with id `nid` carries a tag named `name`.
pub open spec fn has_tag_named(db: StoreView, nid: Seq<char>, name: Seq<char>) -> bool {
    exists|i: int, j: int|
        0 <= i < db.tags.len() && 0 <= j < db.node_tags.len() && #[trigger] db.tags[i].name
            == name && #[trigger] db.node_tags[j] == (nid, db.tags[i].id)
}

/// The filter of `list_nodes`: the type, and the parent, status and tag when
/// given.
pub open spec fn list_matches(
    db: StoreView,
    node_type: NodeType,
    parent: Option<Seq<char>>,
    status: Option<NodeStatus>,
    tag: Option<Seq<char>>,
    n: NodeView,
) -> bool {
    &&& n.node_type == node_type
    &&& match parent {
        Some(p) => has_edge(db.edges, EdgeType::Parent, p, n.id),
        None => true,
    }
    &&& match tag {
        Some(t) => has_tag_named(db, n.id, t),
        None => true,
    }
    &&& match status {
        Some(s) => n.status == s,
        None => true,
    }
}

pub open spec fn list_filter(
    db: StoreView,
    node_type: NodeType,
    parent: Option<Seq<char>>,
    status: Option<NodeStatus>,
    tag: Option<Seq<char>>,
) -> spec_fn(NodeView) -> bool {
    |n: NodeView| list_matches(db, node_type, parent, status, tag, n)
}

/// The nodes that `list_nodes` returns, ordered by `sort_order`, then
/// `created_at`.
pub open spec fn spec_list_nodes(
    db: StoreView,
    node_type: NodeType,
    parent: Option<Seq<char>>,
    status: Option<NodeStatus>,
    tag: Option<Seq<char>>,
) -> Seq<NodeView> {
    ranked::<Node>(db.nodes.filter(list_filter(db, node_type, parent, status, tag)))
}

pub open spec fn child_filter(db: StoreView, parent: Seq<char>) -> spec_fn(NodeView) -> bool {
    |n: NodeView| has_edge(db.edges, EdgeType::Parent, parent, n.id)
}

/// The children of `parent`, ordered by `sort_order`, then `created_at`.
pub open spec fn spec_get_children(db: StoreView, parent: Seq<char>) -> Seq<NodeView> {
    ranked::<Node>(db.nodes.filter(child_filter(db, parent)))
}

fn node_has_tag(conn: &Tables, nid: &str, name: &str) -> (r: bool)
    ensures
        r == has_tag_named(conn@, nid@, name@),
{
    let ghost db = conn@;
    let mut i: usize = 0;
    while i < conn.tags.len()
        invariant
            db == conn@,
            i <= conn.tags.len(),
            forall|a: int, b: int|
                0 <= a < i && 0 <= b < db.node_tags.len() ==> !(#[trigger] db.tags[a].name == name@
                    && #[trigger] db.node_tags[b] == (nid@, db.tags[a].id)),
        decreases conn.tags.len() - i,
    {
        if str_eq(conn.tags[i].name.as_str(), name) {
            let mut j: usize = 0;
            while j < conn.node_tags.len()
                invariant
                    db == conn@,
                    i < conn.tags.len(),
                    j <= conn.node_tags.len(),
                    db.tags[i as int].name == name@,
                    forall|b: int|
                        0 <= b < j ==> #[trigger] db.node_tags[b] != (nid@, db.tags[i as int].id),
                decreases conn.node_tags.len() - j,
            {
                let l = &conn.node_tags[j];
                if str_eq(l.node_id.as_str(), nid) && l.tag_id == conn.tags[i].id {
                    assert(db.node_tags[j as int] == (nid@, db.tags[i as int].id));
                    return true;
                }
                j = j + 1;
            }
        }
        i = i + 1;
    }
    false
}

fn opt_eq_status(status: Option<NodeStatus>, s: NodeStatus) -> (r: bool)
    ensures
        r == match status {
            Some(x) => s == x,
            None => true,
        },
{
    match status {
        Some(x) => s == x,
        None => true,
    }
}

/// The nodes of `node_type`, narrowed to the children of `parent_id`, the
/// status `status` and the carriers of tag `tag` where these are given;
/// ordered by `sort_order`, then `created_at`.
pub(crate) fn list_nodes(
    conn: &Tables,
    node_type: NodeType,
    parent_id: Option<&str>,
    status: Option<NodeStatus>,
    tag: Option<&str>,
) -> (r: DbResult<Vec<Node>>)
    ensures
        r matches Ok(v) && views(v@) == spec_list_nodes(
            conn@,
            node_type,
            opt_str(parent_id),
            status,
            opt_str(tag),
        ),
{
    let keep = |n: &Node| -> (b: bool)
        ensures
            b == list_matches(conn@, node_type, opt_str(parent_id), status, opt_str(tag), n@),
        {
            n.node_type == node_type && match parent_id {
                Some(p) => find_edge(&conn.edges, EdgeType::Parent, p, n.id.as_str()),
                None => true,
            } && match tag {
                Some(t) => node_has_tag(conn, n.id.as_str(), t),
                None => true,
            } && opt_eq_status(status, n.status)
        };
    let out = filter_rows(
        &conn.nodes,
        keep,
        Ghost(list_filter(conn@, node_type, opt_str(parent_id), status, opt_str(tag))),
    );
    Ok(sort_ranked(&out))
}


/// The nodes linked below `parent_id` by a parent edge, ordered by
/// `sort_order`, then `created_at`.
pub(crate) fn get_children(conn: &Tables, parent_id: &str) -> (r: DbResult<Vec<Node>>)
    ensures
        r matches Ok(v) && views(v@) == spec_get_children(conn@, parent_id@),
{
    let keep = |n: &Node| -> (b: bool)
        ensures
            b == has_edge(conn@.edges, EdgeType::Parent, parent_id@, n@.id),
        { find_edge(&conn.edges, EdgeType::Parent, parent_id, n.id.as_str()) };
    let out = filter_rows(&conn.nodes, keep, Ghost(child_filter(conn@, parent_id@)));
    Ok(sort_ranked(&out))
}


// ---------------------------------------------------------------------------
// Deleting nodes
// ---------------------------------------------------------------------------

pub open spec fn keep_node(gone: spec_fn(Seq<char>) -> bool) -> spec_fn(NodeView) -> bool {
    |n: NodeView| !gone(n.id)
}

pub open spec fn keep_edge(gone: spec_fn(Seq<char>) -> bool) -> spec_fn(EdgeView) -> bool {
    |e: EdgeView| !gone(e.source_id) && !gone(e.target_id)
}

pub open spec fn keep_link(gone: spec_fn(Seq<char>) -> bool) -> spec_fn((Seq<char>, Seq<char>)) -> bool {
    |l: (Seq<char>, Seq<char>)| !gone(l.0)
}

pub open spec fn keep_entry(gone: spec_fn(Seq<char>) -> bool) -> spec_fn(HistoryView) -> bool {
    |h: HistoryView| !gone(h.node_id)
}

/// The store without the nodes for which `gone` holds, and without every row
/// that refers to one of them (the cascade of the foreign keys).
pub open spec fn remove_nodes(db: StoreView, gone: spec_fn(Seq<char>) -> bool) -> StoreView {
    StoreView {
        nodes: db.nodes.filter(keep_node(gone)),
        edges: db.edges.filter(keep_edge(gone)),
        tags: db.tags,
        node_tags: db.node_tags.filter(keep_link(gone)),
        history: db.history.filter(keep_entry(gone)),
    }
}

/// The node `id` and everything below it through parent edges.
pub open spec fn subtree(db: StoreView, id: Seq<char>) -> spec_fn(Seq<char>) -> bool {
    |x: Seq<char>| reachable(db.edges, EdgeType::Parent, id, x)
}

/// What `delete_node` does: the node, its descendants through parent edges,
/// and every row that refers to any of them, are gone.
pub open spec fn spec_delete_node(db: StoreView, id: Seq<char>) -> (
    StoreView,
    Result<(), DbErrorView>,
) {
    if has_node(db.nodes, id) {
        (remove_nodes(db, subtree(db, id)), Ok(()))
    } else {
        (db, Err(DbErrorView::Custom(msg_node_not_found(id))))
    }
}

pub open spec fn listed(s: Seq<Seq<char>>) -> spec_fn(Seq<char>) -> bool {
    |x: Seq<char>| s.contains(x)
}

fn listed_exec(gone: &Vec<String>, x: &String) -> (r: bool)
    ensures
        r == listed(strs(gone@))(x@),
{
    let mut i: usize = 0;
    while i < gone.len()
        invariant
            i <= gone.len(),
            forall|j: int| 0 <= j < i ==> strs(gone@)[j] != x@,
        decreases gone.len() - i,
    {
        if gone[i] == *x {
            assert(strs(gone@)[i as int] == x@);
            return true;
        }
        i = i + 1;
    }
    false
}

fn retain_nodes(v: &Vec<Node>, gone: &Vec<String>) -> (r: Vec<Node>)
    ensures
        views(r@) == views(v@).filter(keep_node(listed(strs(gone@)))),
{
    let keep = |n: &Node| -> (b: bool)
        ensures
            b == !strs(gone@).contains(n@.id),
        { !listed_exec(gone, &n.id) };
    filter_rows(v, keep, Ghost(keep_node(listed(strs(gone@)))))
}


fn retain_edges(v: &Vec<Edge>, gone: &Vec<String>) -> (r: Vec<Edge>)
    ensures
        views(r@) == views(v@).filter(keep_edge(listed(strs(gone@)))),
{
    let keep = |e: &Edge| -> (b: bool)
        ensures
            b == (!strs(gone@).contains(e@.source_id) && !strs(gone@).contains(e@.target_id)),
        { !listed_exec(gone, &e.source_id) && !listed_exec(gone, &e.target_id) };
    filter_rows(v, keep, Ghost(keep_edge(listed(strs(gone@)))))
}


fn retain_links(v: &Vec<NodeTag>, gone: &Vec<String>) -> (r: Vec<NodeTag>)
    ensures
        views(r@) == views(v@).filter(keep_link(listed(strs(gone@)))),
{
    let keep = |l: &NodeTag| -> (b: bool)
        ensures
            b == !strs(gone@).contains(l@.0),
        { !listed_exec(gone, &l.node_id) };
    filter_rows(v, keep, Ghost(keep_link(listed(strs(gone@)))))
}


fn retain_entries(v: &Vec<StatusHistoryEntry>, gone: &Vec<String>) -> (r: Vec<StatusHistoryEntry>)
    ensures
        views(r@) == views(v@).filter(keep_entry(listed(strs(gone@)))),
{
    let keep = |h: &StatusHistoryEntry| -> (b: bool)
        ensures
            b == !strs(gone@).contains(h@.node_id),
        { !listed_exec(gone, &h.node_id) };
    filter_rows(v, keep, Ghost(keep_entry(listed(strs(gone@)))))
}


/// Deletes node `id` with every node below it through parent edges, and
/// every edge, tag link and history entry of those nodes.
pub(crate) fn delete_node(conn: &mut Tables, id: &str) -> (r: DbResult<()>)
    ensures
        final(conn)@ == spec_delete_node(old(conn)@, id@).0,
        unit_view(r) == spec_delete_node(old(conn)@, id@).1,
{
    let _ = get_node(conn, id)?;
    let ghost db = conn@;
    let gone = collect_reachable(&conn.edges, EdgeType::Parent, id);
    proof {
        assert(listed(strs(gone@)) =~= subtree(db, id@));
    }
    let nodes = retain_nodes(&conn.nodes, &gone);
    let edges = retain_edges(&conn.edges, &gone);
    let links = retain_links(&conn.node_tags, &gone);
    let entries = retain_entries(&conn.history, &gone);
    conn.nodes = nodes;
    conn.edges = edges;
    conn.node_tags = links;
    conn.history = entries;
    proof {
        assert(conn@ =~= remove_nodes(db, subtree(db, id@)));
    }
    Ok(())
}

// ---------------------------------------------------------------------------
// Edges
// ---------------------------------------------------------------------------

/// Whether `to` can be reached from `from` along edges of `edge_type`
/// (a node reaches itself).
pub(crate) fn has_path(conn: &Tables, from: &str, to: &str, edge_type: EdgeType) -> (r: bool)
    ensures
        r == reachable(conn@.edges, edge_type, from@, to@),
{
    let found = collect_reachable(&conn.edges, edge_type, from);
    let target = owned(to);
    listed_exec(&found, &target)
}

pub open spec fn msg_cycle() -> Seq<char> {
    "creating this edge would form a cycle in the dependency graph"@
}

/// What `create_edge` does with the identifier `id` and the time `now`.
pub open spec fn spec_create_edge(
    db: StoreView,
    source: Seq<char>,
    target: Seq<char>,
    edge_type: EdgeType,
    id: Seq<char>,
    now: Seq<char>,
) -> (StoreView, Result<EdgeView, DbErrorView>) {
    let edge = EdgeView {
        id,
        source_id: source,
        target_id: target,
        edge_type,
        created_at: now,
    };
    if !has_node(db.nodes, source) {
        (db, Err(DbErrorView::Custom(msg_node_not_found(source))))
    } else if !has_node(db.nodes, target) {
        (db, Err(DbErrorView::Custom(msg_node_not_found(target))))
    } else if edge_type == EdgeType::Blocks && reachable(db.edges, EdgeType::Blocks, target, source) {
        (db, Err(DbErrorView::Custom(msg_cycle())))
    } else if has_edge_id(db.edges, id) {
        (db, Err(DbErrorView::Sqlite("UNIQUE constraint failed: edges.id"@)))
    } else if has_edge(db.edges, edge_type, source, target) {
        (
            db,
            Err(
                DbErrorView::Sqlite(
                    "UNIQUE constraint failed: edges.source_id, edges.target_id, edges.edge_type"@,
                ),
            ),
        )
    } else {
        (StoreView { edges: db.edges.push(edge), ..db }, Ok(edge))
    }
}

/// Links `source_id` to `target_id` with an edge of `edge_type` that gets the
/// identifier `id` and the time `now`. Both nodes must exist, and a `Blocks`
/// edge is refused when `target_id` already reaches `source_id` through
/// `Blocks` edges, since it would close a cycle.
pub(crate) fn create_edge_with(
    conn: &mut Tables,
    id: &str,
    now: &str,
    source_id: &str,
    target_id: &str,
    edge_type: EdgeType,
) -> (r: DbResult<Edge>)
    ensures
        final(conn)@ == spec_create_edge(old(conn)@, source_id@, target_id@, edge_type, id@, now@).0,
        res_view(r) == spec_create_edge(old(conn)@, source_id@, target_id@, edge_type, id@, now@).1,
{
    let _ = get_node(conn, source_id)?;
    let _ = get_node(conn, target_id)?;
    if edge_type == EdgeType::Blocks {
        if has_path(conn, target_id, source_id, EdgeType::Blocks) {
            return Err(
                DbError::Custom(
                    owned("creating this edge would form a cycle in the dependency graph"),
                ),
            );
        }
    }
    if find_edge_id(&conn.edges, id) {
        return Err(DbError::Sqlite(owned("UNIQUE constraint failed: edges.id")));
    }
    if find_edge(&conn.edges, edge_type, source_id, target_id) {
        return Err(
            DbError::Sqlite(
                owned(
                    "UNIQUE constraint failed: edges.source_id, edges.target_id, edges.edge_type",
                ),
            ),
        );
    }
    let edge = Edge {
        id: owned(id),
        source_id: owned(source_id),
        target_id: owned(target_id),
        edge_type,
        created_at: owned(now),
    };
    let ghost before = views(conn.edges@);
    conn.edges.push(edge.copy());
    proof {
        assert(views(conn.edges@) =~= before.push(edge@));
    }
    Ok(edge)
}

pub open spec fn not_this_edge(source: Seq<char>, target: Seq<char>, edge_type: EdgeType) -> spec_fn(
    EdgeView,
) -> bool {
    |e: EdgeView| !(e.source_id == source && e.target_id == target && e.edge_type == edge_type)
}

/// What `delete_edge` does.
pub open spec fn spec_delete_edge(
    db: StoreView,
    source: Seq<char>,
    edge_type: EdgeType,
    target: Seq<char>,
) -> (StoreView, Result<(), DbErrorView>) {
    if has_edge(db.edges, edge_type, source, target) {
        (
            StoreView { edges: db.edges.filter(not_this_edge(source, target, edge_type)), ..db },
            Ok(()),
        )
    } else {
        (db, Err(DbErrorView::Custom("edge not found"@)))
    }
}

/// Removes the edge of `edge_type` from `source_id` to `target_id`, or fails
/// with "edge not found".
pub(crate) fn delete_edge(conn: &mut Tables, source_id: &str, edge_type: EdgeType, target_id: &str) -> (r:
    DbResult<()>)
    ensures
        final(conn)@ == spec_delete_edge(old(conn)@, source_id@, edge_type, target_id@).0,
        unit_view(r) == spec_delete_edge(old(conn)@, source_id@, edge_type, target_id@).1,
{
    if !find_edge(&conn.edges, edge_type, source_id, target_id) {
        return Err(DbError::Custom(owned("edge not found")));
    }
    let ghost db = conn@;
    let keep = |e: &Edge| -> (b: bool)
        ensures
            b == !(e@.source_id == source_id@ && e@.target_id == target_id@ && e@.edge_type
                == edge_type),
        {
            !(str_eq(e.source_id.as_str(), source_id) && str_eq(e.target_id.as_str(), target_id)
                && e.edge_type == edge_type)
        };
    let ghost pred = not_this_edge(source_id@, target_id@, edge_type);
    let out = filter_rows(&conn.edges, keep, Ghost(pred));
    conn.edges = out;
    proof {
        assert(conn@ =~= StoreView { edges: db.edges.filter(pred), ..db });
    }
    Ok(())
}

pub open spec fn touches(node_id: Seq<char>) -> spec_fn(EdgeView) -> bool {
    |e: EdgeView| e.source_id == node_id || e.target_id == node_id
}

/// The edges that start or end at `node_id`, in the order they were made.
pub(crate) fn get_edges(conn: &Tables, node_id: &str) -> (r: DbResult<Vec<Edge>>)
    ensures
        r matches Ok(v) && views(v@) == conn@.edges.filter(touches(node_id@)),
{
    let keep = |e: &Edge| -> (b: bool)
        ensures
            b == (e@.source_id == node_id@ || e@.target_id == node_id@),
        { str_eq(e.source_id.as_str(), node_id) || str_eq(e.target_id.as_str(), node_id) };
    Ok(filter_rows(&conn.edges, keep, Ghost(touches(node_id@))))
}

// ---------------------------------------------------------------------------
// Tags
// ---------------------------------------------------------------------------

/// The colour every tag is given.
pub open spec fn default_color() -> Seq<char> {
    "#8ddb9f"@
}

pub open spec fn has_tag_name(ts: Seq<TagView>, name: Seq<char>) -> bool {
    exists|i: int| 0 <= i < ts.len() && #[trigger] ts[i].name == name
}

pub open spec fn is_first_tag(ts: Seq<TagView>, name: Seq<char>, i: int) -> bool {
    &&& 0 <= i < ts.len()
    &&& ts[i].name == name
    &&& forall|j: int| 0 <= j < i ==> #[trigger] ts[j].name != name
}

/// The tag that `SELECT id FROM tags WHERE name = ?` finds.
pub open spec fn lookup_tag(ts: Seq<TagView>, name: Seq<char>) -> Option<TagView> {
    if has_tag_name(ts, name) {
        Some(ts[choose|i: int| is_first_tag(ts, name, i)])
    } else {
        None
    }
}

pub proof fn lemma_first_tag(ts: Seq<TagView>, name: Seq<char>, i: int)
    requires
        is_first_tag(ts, name, i),
    ensures
        lookup_tag(ts, name) == Some(ts[i]),
{
    assert(has_tag_name(ts, name));
    let k = choose|k: int| is_first_tag(ts, name, k);
    if k < i {
        assert(ts[k].name != name);
    }
    if k > i {
        assert(ts[i].name != name);
    }
}

/// Whenever some tag has name `name`, there is a first such tag.
pub proof fn lemma_has_first_tag(ts: Seq<TagView>, name: Seq<char>, k: int) -> (i: int)
    requires
        0 <= k < ts.len(),
        ts[k].name == name,
    ensures
        is_first_tag(ts, name, i),
        lookup_tag(ts, name) == Some(ts[i]),
    decreases k,
{
    if exists|j: int| 0 <= j < k && #[trigger] ts[j].name == name {
        let j = choose|j: int| 0 <= j < k && #[trigger] ts[j].name == name;
        lemma_has_first_tag(ts, name, j)
    } else {
        lemma_first_tag(ts, name, k);
        k
    }
}

pub open spec fn has_tag_id(ts: Seq<TagView>, id: Seq<char>) -> bool {
    exists|i: int| 0 <= i < ts.len() && #[trigger] ts[i].id == id
}

/// The store with the link (node, tag) added unless it is there already
/// (`INSERT OR IGNORE`).
pub open spec fn link_tag(db: StoreView, node_id: Seq<char>, tag_id: Seq<char>) -> StoreView {
    if db.node_tags.contains((node_id, tag_id)) {
        db
    } else {
        StoreView { node_tags: db.node_tags.push((node_id, tag_id)), ..db }
    }
}

/// What `add_tag` does, with `new_id` for the tag should it be new.
pub open spec fn spec_add_tag(
    db: StoreView,
    node_id: Seq<char>,
    name: Seq<char>,
    new_id: Seq<char>,
) -> (StoreView, Result<TagView, DbErrorView>) {
    if !has_node(db.nodes, node_id) {
        (db, Err(DbErrorView::Custom(msg_node_not_found(node_id))))
    } else {
        match lookup_tag(db.tags, name) {
            Some(t) => (
                link_tag(db, node_id, t.id),
                Ok(TagView { id: t.id, name, color: default_color() }),
            ),
            None => if has_tag_id(db.tags, new_id) {
                (db, Err(DbErrorView::Sqlite("UNIQUE constraint failed: tags.id"@)))
            } else {
                let tag = TagView { id: new_id, name, color: default_color() };
                (link_tag(StoreView { tags: db.tags.push(tag), ..db }, node_id, new_id), Ok(tag))
            },
        }
    }
}

fn find_tag(tags: &Vec<Tag>, name: &str) -> (r: Option<usize>)
    ensures
        match r {
            Some(i) => is_first_tag(views(tags@), name@, i as int),
            None => !has_tag_name(views(tags@), name@),
        },
{
    let ghost ts = views(tags@);
    let mut i: usize = 0;
    while i < tags.len()
        invariant
            ts == views(tags@),
            i <= tags.len(),
            forall|j: int| 0 <= j < i ==> #[trigger] ts[j].name != name@,
        decreases tags.len() - i,
    {
        if str_eq(tags[i].name.as_str(), name) {
            return Some(i);
        }
        i = i + 1;
    }
    None
}

pub(crate) fn find_tag_id(tags: &Vec<Tag>, id: &str) -> (r: bool)
    ensures
        r == has_tag_id(views(tags@), id@),
{
    let ghost ts = views(tags@);
    let mut i: usize = 0;
    while i < tags.len()
        invariant
            ts == views(tags@),
            i <= tags.len(),
            forall|j: int| 0 <= j < i ==> #[trigger] ts[j].id != id@,
        decreases tags.len() - i,
    {
        if str_eq(tags[i].id.as_str(), id) {
            assert(ts[i as int].id == id@);
            return true;
        }
        i = i + 1;
    }
    false
}

fn find_link(links: &Vec<NodeTag>, node_id: &str, tag_id: &str) -> (r: bool)
    ensures
        r == views(links@).contains((node_id@, tag_id@)),
{
    let ghost ls = views(links@);
    let mut i: usize = 0;
    while i < links.len()
        invariant
            ls == views(links@),
            i <= links.len(),
            forall|j: int| 0 <= j < i ==> #[trigger] ls[j] != (node_id@, tag_id@),
        decreases links.len() - i,
    {
        if str_eq(links[i].node_id.as_str(), node_id) && str_eq(links[i].tag_id.as_str(), tag_id) {
            assert(ls[i as int] == (node_id@, tag_id@));
            return true;
        }
        i = i + 1;
    }
    false
}

fn link_tag_exec(conn: &mut Tables, node_id: &str, tag_id: &str)
    ensures
        final(conn)@ == link_tag(old(conn)@, node_id@, tag_id@),
{
    if !find_link(&conn.node_tags, node_id, tag_id) {
        let ghost before = views(conn.node_tags@);
        conn.node_tags.push(NodeTag { node_id: owned(node_id), tag_id: owned(tag_id) });
        proof {
            assert(views(conn.node_tags@) =~= before.push((node_id@, tag_id@)));
        }
    }
}

/// Tags node `node_id` with `tag_name`, creating the tag under `new_id` if no
/// tag has that name yet. Tagging twice leaves one link.
pub(crate) fn add_tag_with(conn: &mut Tables, new_id: &str, node_id: &str, tag_name: &str) -> (r: DbResult<
    Tag,
>)
    ensures
        final(conn)@ == spec_add_tag(old(conn)@, node_id@, tag_name@, new_id@).0,
        res_view(r) == spec_add_tag(old(conn)@, node_id@, tag_name@, new_id@).1,
{
    let _ = get_node(conn, node_id)?;
    let tag_id = match find_tag(&conn.tags, tag_name) {
        Some(i) => {
            proof {
                lemma_first_tag(conn@.tags, tag_name@, i as int);
            }
            conn.tags[i].id.clone()
        },
        None => {
            if find_tag_id(&conn.tags, new_id) {
                return Err(DbError::Sqlite(owned("UNIQUE constraint failed: tags.id")));
            }
            let ghost before = views(conn.tags@);
            conn.tags.push(
                Tag { id: owned(new_id), name: owned(tag_name), color: owned("#8ddb9f") },
            );
            proof {
                assert(views(conn.tags@) =~= before.push(conn.tags@.last()@));
            }
            owned(new_id)
        },
    };
    link_tag_exec(conn, node_id, tag_id.as_str());
    Ok(Tag { id: tag_id, name: owned(tag_name), color: owned("#8ddb9f") })
}

pub open spec fn msg_tag_not_on_node(name: Seq<char>, node_id: Seq<char>) -> Seq<char> {
    "tag '"@ + name + "' not found on node "@ + node_id
}

pub open spec fn not_this_link(node_id: Seq<char>, tag_id: Seq<char>) -> spec_fn(
    (Seq<char>, Seq<char>),
) -> bool {
    |l: (Seq<char>, Seq<char>)| l != (node_id, tag_id)
}

/// What `remove_tag` does.
pub open spec fn spec_remove_tag(db: StoreView, node_id: Seq<char>, name: Seq<char>) -> (
    StoreView,
    Result<(), DbErrorView>,
) {
    match lookup_tag(db.tags, name) {
        Some(t) => if db.node_tags.contains((node_id, t.id)) {
            (
                StoreView {
                    node_tags: db.node_tags.filter(not_this_link(node_id, t.id)),
                    ..db
                },
                Ok(()),
            )
        } else {
            (db, Err(DbErrorView::Custom(msg_tag_not_on_node(name, node_id))))
        },
        None => (db, Err(DbErrorView::Custom(msg_tag_not_on_node(name, node_id)))),
    }
}

fn tag_not_on_node(tag_name: &str, node_id: &str) -> (r: DbError)
    ensures
        r@ == DbErrorView::Custom(msg_tag_not_on_node(tag_name@, node_id@)),
{
    let mut m = owned("tag '");
    m.append(tag_name);
    m.append("' not found on node ");
    m.append(node_id);
    DbError::Custom(m)
}

/// Removes tag `tag_name` from node `node_id`, or fails when the node does
/// not carry it.
pub(crate) fn remove_tag(conn: &mut Tables, node_id: &str, tag_name: &str) -> (r: DbResult<()>)
    ensures
        final(conn)@ == spec_remove_tag(old(conn)@, node_id@, tag_name@).0,
        unit_view(r) == spec_remove_tag(old(conn)@, node_id@, tag_name@).1,
{
    let i = match find_tag(&conn.tags, tag_name) {
        Some(i) => i,
        None => {
            return Err(tag_not_on_node(tag_name, node_id));
        },
    };
    proof {
        lemma_first_tag(conn@.tags, tag_name@, i as int);
    }
    let tag_id = conn.tags[i].id.clone();
    if !find_link(&conn.node_tags, node_id, tag_id.as_str()) {
        return Err(tag_not_on_node(tag_name, node_id));
    }
    let ghost db = conn@;
    let keep = |l: &NodeTag| -> (b: bool)
        ensures
            b == (l@ != (node_id@, tag_id@)),
        { !(str_eq(l.node_id.as_str(), node_id) && l.tag_id == tag_id) };
    let ghost pred = not_this_link(node_id@, tag_id@);
    let out = filter_rows(&conn.node_tags, keep, Ghost(pred));
    conn.node_tags = out;
    proof {
        assert(conn@ =~= StoreView { node_tags: db.node_tags.filter(pred), ..db });
    }
    Ok(())
}

pub open spec fn tagged(db: StoreView, node_id: Seq<char>) -> spec_fn(TagView) -> bool {
    |t: TagView| db.node_tags.contains((node_id, t.id))
}

/// The tags of a node, by name.
pub open spec fn spec_node_tags(db: StoreView, node_id: Seq<char>) -> Seq<TagView> {
    ranked::<Tag>(db.tags.filter(tagged(db, node_id)))
}

/// The tags that node `node_id` carries, ordered by name.
pub(crate) fn get_node_tags(conn: &Tables, node_id: &str) -> (r: DbResult<Vec<Tag>>)
    ensures
        r matches Ok(v) && views(v@) == spec_node_tags(conn@, node_id@),
{
    let keep = |t: &Tag| -> (b: bool)
        ensures
            b == conn@.node_tags.contains((node_id@, t@.id)),
        { find_link(&conn.node_tags, node_id, t.id.as_str()) };
    let out = filter_rows(&conn.tags, keep, Ghost(tagged(conn@, node_id@)));
    Ok(sort_ranked(&out))
}


/// Every tag, ordered by name.
pub(crate) fn list_tags(conn: &Tables) -> (r: DbResult<Vec<Tag>>)
    ensures
        r matches Ok(v) && views(v@) == ranked::<Tag>(conn@.tags),
{
    Ok(sort_ranked(&conn.tags))
}

// ---------------------------------------------------------------------------
// A node with its relationships
// ---------------------------------------------------------------------------

/// Edges of `edge_type`, from `from` and to `to` where these are given.
pub open spec fn edge_select(
    edge_type: EdgeType,
    from: Option<Seq<char>>,
    to: Option<Seq<char>>,
) -> spec_fn(EdgeView) -> bool {
    |e: EdgeView|
        e.edge_type == edge_type && match from {
            Some(f) => e.source_id == f,
            None => true,
        } && match to {
            Some(t) => e.target_id == t,
            None => true,
        }
}

pub open spec fn is_completed() -> spec_fn(NodeView) -> bool {
    |n: NodeView| n.status == NodeStatus::Completed
}

/// Completed and total children, when there are children.
pub open spec fn spec_progress(children: Seq<NodeView>) -> Option<(nat, nat)> {
    if children.len() > 0 {
        Some((children.filter(is_completed()).len(), children.len()))
    } else {
        None
    }
}

/// What `get_node_detail` returns: the node, its children, its tags, the
/// `Blocks` edges out of it and into it, the `Related` edges at either end,
/// and the progress of its children.
pub open spec fn spec_node_detail(db: StoreView, id: Seq<char>) -> Result<
    NodeDetailView,
    DbErrorView,
> {
    match lookup_node(db.nodes, id) {
        None => Err(DbErrorView::Custom(msg_node_not_found(id))),
        Some(n) => {
            let children = spec_get_children(db, id);
            let edges = db.edges.filter(touches(id));
            Ok(
                NodeDetailView {
                    node: n,
                    children,
                    tags: spec_node_tags(db, id),
                    blocks: edges.filter(edge_select(EdgeType::Blocks, Some(id), None)),
                    blocked_by: edges.filter(edge_select(EdgeType::Blocks, None, Some(id))),
                    related: edges.filter(edge_select(EdgeType::Related, None, None)),
                    progress: spec_progress(children),
                },
            )
        },
    }
}

fn select_edges(v: &Vec<Edge>, edge_type: EdgeType, from: Option<&str>, to: Option<&str>) -> (r:
    Vec<Edge>)
    ensures
        views(r@) == views(v@).filter(edge_select(edge_type, opt_str(from), opt_str(to))),
{
    let keep = |e: &Edge| -> (b: bool)
        ensures
            b == (e@.edge_type == edge_type && match opt_str(from) {
                Some(f) => e@.source_id == f,
                None => true,
            } && match opt_str(to) {
                Some(t) => e@.target_id == t,
                None => true,
            }),
        {
            e.edge_type == edge_type && match from {
                Some(f) => str_eq(e.source_id.as_str(), f),
                None => true,
            } && match to {
                Some(t) => str_eq(e.target_id.as_str(), t),
                None => true,
            }
        };
    filter_rows(v, keep, Ghost(edge_select(edge_type, opt_str(from), opt_str(to))))
}


fn count_completed(v: &Vec<Node>) -> (r: usize)
    ensures
        r as nat == views(v@).filter(is_completed()).len(),
{
    let ghost s = views(v@);
    let mut count: usize = 0;
    let mut i: usize = 0;
    while i < v.len()
        invariant
            s == views(v@),
            i <= v.len(),
            count as nat == s.take(i as int).filter(is_completed()).len(),
            count <= i,
        decreases v.len() - i,
    {
        proof {
            reveal(Seq::filter);
            let t = s.take(i + 1);
            assert(t.drop_last() =~= s.take(i as int));
            assert(t.last() == v[i as int]@);
        }
        if v[i].status == NodeStatus::Completed {
            count = count + 1;
        }
        i = i + 1;
    }
    proof {
        assert(s.take(v.len() as int) =~= s);
    }
    count
}

/// Node `id` with its children, tags, dependency and related edges, and the
/// progress of its children.
pub(crate) fn get_node_detail(conn: &Tables, id: &str) -> (r: DbResult<NodeDetail>)
    ensures
        res_view(r) == spec_node_detail(conn@, id@),
{
    let node = get_node(conn, id)?;
    let children = get_children(conn, id)?;
    let tags = get_node_tags(conn, id)?;
    let all_edges = get_edges(conn, id)?;
    let blocks = select_edges(&all_edges, EdgeType::Blocks, Some(id), None);
    let blocked_by = select_edges(&all_edges, EdgeType::Blocks, None, Some(id));
    let related = select_edges(&all_edges, EdgeType::Related, None, None);
    let progress = if children.len() > 0 {
        let completed = count_completed(&children);
        Some(Progress { completed, total: children.len() })
    } else {
        None
    };
    let detail = NodeDetail { node, children, tags, blocks, blocked_by, related, progress };
    proof {
        assert(detail@.progress == spec_progress(spec_get_children(conn@, id@)));
    }
    Ok(detail)
}

// ---------------------------------------------------------------------------
// Resolving a reference typed by a user
// ---------------------------------------------------------------------------

pub open spec fn title_matches(x: Seq<char>) -> spec_fn(NodeView) -> bool {
    |n: NodeView| eq_ignore_ascii_case(n.title, x)
}

pub open spec fn match_line(n: NodeView) -> Seq<char> {
    "  "@ + n.id + " — "@ + n.title
}

/// One line per matching node, separated by newlines.
pub open spec fn match_lines(ms: Seq<NodeView>) -> Seq<char>
    decreases ms.len(),
{
    if ms.len() == 0 {
        Seq::empty()
    } else if ms.len() == 1 {
        match_line(ms[0])
    } else {
        match_lines(ms.drop_last()) + "\n"@ + match_line(ms.last())
    }
}

/// What `resolve_node` answers: `x` itself when it is a node's id; else the
/// id of the one node whose title equals `x` up to ASCII case; else an error
/// that says that none or that several match (listing them).
pub open spec fn spec_resolve_node(db: StoreView, x: Seq<char>) -> Result<Seq<char>, DbErrorView> {
    if has_node(db.nodes, x) {
        Ok(x)
    } else {
        let ms = db.nodes.filter(title_matches(x));
        if ms.len() == 0 {
            Err(DbErrorView::Custom("no node found matching '"@ + x + "'"@))
        } else if ms.len() == 1 {
            Ok(ms[0].id)
        } else {
            Err(DbErrorView::Custom("multiple nodes match '"@ + x + "':\n"@ + match_lines(ms)))
        }
    }
}

/// Resolve an ID-or-title to a node ID. Returns error if title matches multiple nodes.
pub(crate) fn resolve_node(conn: &Tables, id_or_title: &str) -> (r: DbResult<String>)
    ensures
        res_view(r) == spec_resolve_node(conn@, id_or_title@),
{
    if find_node(&conn.nodes, id_or_title).is_some() {
        return Ok(owned(id_or_title));
    }
    let keep = |n: &Node| -> (b: bool)
        ensures
            b == eq_ignore_ascii_case(n@.title, id_or_title@),
        { str_eq_ignore_ascii_case(n.title.as_str(), id_or_title) };
    let ms = filter_rows(&conn.nodes, keep, Ghost(title_matches(id_or_title@)));
    if ms.len() == 0 {
        let mut m = owned("no node found matching '");
        m.append(id_or_title);
        m.append("'");
        return Err(DbError::Custom(m));
    }
    if ms.len() == 1 {
        return Ok(ms[0].id.clone());
    }
    let ghost mv = views(ms@);
    let mut lines = String::new();
    let mut k: usize = 0;
    while k < ms.len()
        invariant
            mv == views(ms@),
            k <= ms.len(),
            lines@ == match_lines(mv.take(k as int)),
        decreases ms.len() - k,
    {
        if k > 0 {
            lines.append("\n");
        }
        lines.append("  ");
        lines.append(ms[k].id.as_str());
        lines.append(" — ");
        lines.append(ms[k].title.as_str());
        proof {
            let t = mv.take(k + 1);
            assert(t.drop_last() =~= mv.take(k as int));
            assert(t.last() == ms[k as int]@);
            if k == 0 {
                assert(t.len() == 1);
            }
        }
        k = k + 1;
    }
    proof {
        assert(mv.take(ms.len() as int) =~= mv);
    }
    let mut m = owned("multiple nodes match '");
    m.append(id_or_title);
    m.append("':\n");
    m.append(lines.as_str());
    Err(DbError::Custom(m))
}

} // verus!
