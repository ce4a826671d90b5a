//! The queries of the store: creating, reading, updating and deleting nodes,
//! linking them, tagging them, and reading a node with its relationships.
//!
//! Each query's outcome is stated by a spec function over the store's view
//! (`spec_*`, in `tables`), and every query keeps the schema's constraints
//! that the store holds as its type invariant. The queries that draw fresh
//! identifiers or the current time do so through trusted items and hand
//! them to a `*_with` query, whose contract is exact.
use vstd::prelude::*;
use crate::db::{res_view, unit_view, views, DbResult, Store};
use crate::graph::reachable;
use crate::laws::{
    lemma_add_tag_keeps_wf, lemma_create_edge_keeps_wf, lemma_create_node_keeps_wf,
    lemma_delete_edge_keeps_wf, lemma_delete_node_keeps_wf, lemma_remove_tag_keeps_wf,
    lemma_update_node_keeps_wf,
};
use crate::models::{Edge, EdgeType, Node, NodeDetail, NodeStatus, NodeType, Tag};
use crate::order::ranked;
use crate::tables;
use crate::tables::{
    opt_str, spec_add_tag, spec_create_edge, spec_create_node, spec_delete_edge,
    spec_delete_node, spec_get_children, spec_get_node, spec_list_nodes, spec_node_detail,
    spec_node_tags, spec_remove_tag, spec_resolve_node, spec_update_node, touches,
};

verus! {

// ---------------------------------------------------------------------------
// Identifiers and time
// ---------------------------------------------------------------------------

/// The characters of Crockford's base-32 alphabet, in which ULIDs are written.
pub open spec fn is_crockford(c: char) -> bool {
    ('0' <= c <= '9') || ('A' <= c <= 'Z' && c != 'I' && c != 'L' && c != 'O' && c != 'U')
}

/// Text in the shape of a ULID: 26 characters of Crockford's alphabet.
pub open spec fn is_ulid_text(s: Seq<char>) -> bool {
    &&& s.len() == 26
    &&& forall|i: int| 0 <= i < 26 ==> is_crockford(#[trigger] s[i])
}

/// A decimal digit.
pub open spec fn is_digit(c: char) -> bool {
    '0' <= c <= '9'
}

/// The year of an RFC 3339 stamp: four digits, or, outside 0..=9999, a sign
/// and at least four digits.
pub open spec fn is_year_text(s: Seq<char>) -> bool {
    ||| s.len() == 4 && forall|i: int| 0 <= i < 4 ==> is_digit(#[trigger] s[i])
    ||| s.len() >= 5 && (s[0] == '+' || s[0] == '-') && forall|i: int|
        1 <= i < s.len() ==> is_digit(#[trigger] s[i])
}

/// `-MM-DDTHH:MM:SS`: the part of a stamp between the year and the fraction
/// of a second.
pub open spec fn is_clock_text(s: Seq<char>) -> bool {
    &&& s.len() == 15
    &&& s[0] == '-' && s[3] == '-' && s[6] == 'T' && s[9] == ':' && s[12] == ':'
    &&& forall|i: int|
        0 <= i < 15 && i != 0 && i != 3 && i != 6 && i != 9 && i != 12 ==> is_digit(
            #[trigger] s[i],
        )
}

/// The fraction of a second: nothing, or a point and three, six or nine
/// digits.
pub open spec fn is_fraction_text(s: Seq<char>) -> bool {
    ||| s.len() == 0
    ||| (s.len() == 4 || s.len() == 7 || s.len() == 10) && s[0] == '.' && forall|i: int|
        1 <= i < s.len() ==> is_digit(#[trigger] s[i])
}

/// `s` split as a stamp: a year of `y` characters, `-MM-DDTHH:MM:SS`, a
/// fraction of `f` characters, and the offset `+00:00`.
pub open spec fn is_stamp_split(s: Seq<char>, y: int, f: int) -> bool {
    &&& 0 <= y && 0 <= f && y + 15 + f + 6 == s.len()
    &&& is_year_text(s.subrange(0, y))
    &&& is_clock_text(s.subrange(y, y + 15))
    &&& is_fraction_text(s.subrange(y + 15, y + 15 + f))
    &&& s.subrange(s.len() - 6, s.len() as int) == "+00:00"@
}

/// A UTC timestamp as `to_rfc3339` writes it: year, `-MM-DDTHH:MM:SS`, an
/// optional fraction of a second, and the offset spelled `+00:00`.
pub open spec fn is_utc_stamp(s: Seq<char>) -> bool {
    exists|y: int, f: int| #[trigger] is_stamp_split(s, y, f)
}

/// A fresh identifier: `ulid::Ulid::new()` rendered by `Ulid::to_string`.
/// The crate encodes the 128-bit value as 26 characters of Crockford's
/// base-32 alphabet; the value itself comes from the clock and a random
/// source, so nothing more is stated of it.
#[verifier::external_body]
fn new_id() -> (r: String)
    ensures
        r@.len() == 26,
        forall|i: int| 0 <= i < 26 ==> is_crockford(#[trigger] r@[i]),
{
    ulid::Ulid::new().to_string()
}

/// The current time as `chrono::Utc::now().to_rfc3339()` renders it. The
/// crate writes the year (four digits, or a sign and more digits outside
/// 0..=9999), `-MM-DDTHH:MM:SS` in two-digit fields, the fraction of a second
/// with three, six or nine digits when it is not zero, and the offset of
/// `Utc` as `+00:00` (it does not use `Z` there). Which date and time it is
/// comes from the clock, so nothing more is stated of the digits.
#[verifier::external_body]
fn now_iso() -> (r: String)
    ensures
        is_utc_stamp(r@),
{
    chrono::Utc::now().to_rfc3339()
}

// ---------------------------------------------------------------------------
// The queries
// ---------------------------------------------------------------------------

/// The node with id `id`, or "node not found: <id>".
pub fn get_node(conn: &Store, id: &str) -> (r: DbResult<Node>)
    ensures
        res_view(r) == spec_get_node(conn@, id@),
{
    tables::get_node(conn.tables(), id)
}

/// The nodes of `node_type`, narrowed to the children of `parent_id`, the
/// status `status` and the carriers of tag `tag` where these are given;
/// ordered by `sort_order`, then `created_at`.
pub fn list_nodes(
    conn: &Store,
    node_type: NodeType,
    parent_id: Option<&str>,
    status: Option<NodeStatus>,
    tag: Option<&str>,
) -> (r: DbResult<Vec<Node>>)
    ensures
        r matches Ok(v) && views(v@) == spec_list_nodes(
            conn@,
            node_type,
            opt_str(parent_id),
            status,
            opt_str(tag),
        ),
{
    tables::list_nodes(conn.tables(), node_type, parent_id, status, tag)
}

/// The nodes linked below `parent_id` by a parent edge, ordered by
/// `sort_order`, then `created_at`.
pub fn get_children(conn: &Store, parent_id: &str) -> (r: DbResult<Vec<Node>>)
    ensures
        r matches Ok(v) && views(v@) == spec_get_children(conn@, parent_id@),
{
    tables::get_children(conn.tables(), parent_id)
}

/// Whether `to` can be reached from `from` along edges of `edge_type`
/// (a node reaches itself).
pub fn has_path(conn: &Store, from: &str, to: &str, edge_type: EdgeType) -> (r: bool)
    ensures
        r == reachable(conn@.edges, edge_type, from@, to@),
{
    tables::has_path(conn.tables(), from, to, edge_type)
}

/// The edges that start or end at `node_id`, in the order they were made.
pub fn get_edges(conn: &Store, node_id: &str) -> (r: DbResult<Vec<Edge>>)
    ensures
        r matches Ok(v) && views(v@) == conn@.edges.filter(touches(node_id@)),
{
    tables::get_edges(conn.tables(), node_id)
}

/// The tags that node `node_id` carries, ordered by name.
pub fn get_node_tags(conn: &Store, node_id: &str) -> (r: DbResult<Vec<Tag>>)
    ensures
        r matches Ok(v) && views(v@) == spec_node_tags(conn@, node_id@),
{
    tables::get_node_tags(conn.tables(), node_id)
}

/// Every tag, ordered by name.
pub fn list_tags(conn: &Store) -> (r: DbResult<Vec<Tag>>)
    ensures
        r matches Ok(v) && views(v@) == ranked::<Tag>(conn@.tags),
{
    tables::list_tags(conn.tables())
}

/// Node `id` with its children, tags, dependency and related edges, and the
/// progress of its children.
pub fn get_node_detail(conn: &Store, id: &str) -> (r: DbResult<NodeDetail>)
    ensures
        res_view(r) == spec_node_detail(conn@, id@),
{
    tables::get_node_detail(conn.tables(), id)
}

/// Resolve an ID-or-title to a node ID. Returns error if title matches multiple nodes.
pub fn resolve_node(conn: &Store, id_or_title: &str) -> (r: DbResult<String>)
    ensures
        res_view(r) == spec_resolve_node(conn@, id_or_title@),
{
    tables::resolve_node(conn.tables(), id_or_title)
}

/// Creates a node with the identifiers and the time given: the node gets
/// `id`, its parent link (if `parent_id` is given) gets `edge_id`, and both
/// are stamped `now`. Nothing is written unless all of it can be.
pub fn create_node_with(
    conn: &mut Store,
    id: &str,
    edge_id: &str,
    now: &str,
    node_type: NodeType,
    title: &str,
    parent_id: Option<&str>,
) -> (r: DbResult<Node>)
    ensures
        final(conn)@ == spec_create_node(
            old(conn)@,
            node_type,
            title@,
            opt_str(parent_id),
            id@,
            edge_id@,
            now@,
        ).0,
        res_view(r) == spec_create_node(
            old(conn)@,
            node_type,
            title@,
            opt_str(parent_id),
            id@,
            edge_id@,
            now@,
        ).1,
{
    let ghost before = conn@;
    let mut t = conn.take();
    let r = tables::create_node_with(&mut t, id, edge_id, now, node_type, title, parent_id);
    proof {
        lemma_create_node_keeps_wf(before, node_type, title@, opt_str(parent_id), id@, edge_id@, now@);
    }
    conn.put(t);
    r
}

/// Updates the fields given of node `id`, stamps it `now`, and logs a status
/// change under `hist_id` when the status differs from the stored one.
pub fn update_node_with(
    conn: &mut Store,
    id: &str,
    title: Option<&str>,
    description: Option<&str>,
    status: Option<NodeStatus>,
    sort_order: Option<i32>,
    now: &str,
    hist_id: &str,
) -> (r: DbResult<Node>)
    ensures
        final(conn)@ == spec_update_node(
            old(conn)@,
            id@,
            opt_str(title),
            opt_str(description),
            status,
            sort_order,
            now@,
            hist_id@,
        ).0,
        res_view(r) == spec_update_node(
            old(conn)@,
            id@,
            opt_str(title),
            opt_str(description),
            status,
            sort_order,
            now@,
            hist_id@,
        ).1,
{
    let ghost before = conn@;
    let mut t = conn.take();
    let r = tables::update_node_with(&mut t, id, title, description, status, sort_order, now, hist_id);
    proof {
        lemma_update_node_keeps_wf(before, id@, opt_str(title), opt_str(description), status, sort_order, now@, hist_id@);
    }
    conn.put(t);
    r
}

/// Deletes node `id` with every node below it through parent edges, and
/// every edge, tag link and history entry of those nodes.
pub fn delete_node(conn: &mut Store, id: &str) -> (r: DbResult<()>)
    ensures
        final(conn)@ == spec_delete_node(old(conn)@, id@).0,
        unit_view(r) == spec_delete_node(old(conn)@, id@).1,
{
    let ghost before = conn@;
    let mut t = conn.take();
    let r = tables::delete_node(&mut t, id);
    proof {
        lemma_delete_node_keeps_wf(before, id@);
    }
    conn.put(t);
    r
}

/// Links `source_id` to `target_id` with an edge of `edge_type` that gets the
/// identifier `id` and the time `now`. Both nodes must exist, and a `Blocks`
/// edge is refused when `target_id` already reaches `source_id` through
/// `Blocks` edges, since it would close a cycle.
pub fn create_edge_with(
    conn: &mut Store,
    id: &str,
    now: &str,
    source_id: &str,
    target_id: &str,
    edge_type: EdgeType,
) -> (r: DbResult<Edge>)
    ensures
        final(conn)@ == spec_create_edge(old(conn)@, source_id@, target_id@, edge_type, id@, now@).0,
        res_view(r) == spec_create_edge(old(conn)@, source_id@, target_id@, edge_type, id@, now@).1,
{
    let ghost before = conn@;
    let mut t = conn.take();
    let r = tables::create_edge_with(&mut t, id, now, source_id, target_id, edge_type);
    proof {
        lemma_create_edge_keeps_wf(before, source_id@, target_id@, edge_type, id@, now@);
    }
    conn.put(t);
    r
}

/// Removes the edge of `edge_type` from `source_id` to `target_id`, or fails
/// with "edge not found".
pub fn delete_edge(conn: &mut Store, source_id: &str, edge_type: EdgeType, target_id: &str) -> (r:
    DbResult<()>)
    ensures
        final(conn)@ == spec_delete_edge(old(conn)@, source_id@, edge_type, target_id@).0,
        unit_view(r) == spec_delete_edge(old(conn)@, source_id@, edge_type, target_id@).1,
{
    let ghost before = conn@;
    let mut t = conn.take();
    let r = tables::delete_edge(&mut t, source_id, edge_type, target_id);
    proof {
        lemma_delete_edge_keeps_wf(before, source_id@, edge_type, target_id@);
    }
    conn.put(t);
    r
}

/// Tags node `node_id` with `tag_name`, creating the tag under `new_id` if no
/// tag has that name yet. Tagging twice leaves one link.
pub fn add_tag_with(conn: &mut Store, new_id: &str, node_id: &str, tag_name: &str) -> (r: DbResult<
    Tag,
>)
    ensures
        final(conn)@ == spec_add_tag(old(conn)@, node_id@, tag_name@, new_id@).0,
        res_view(r) == spec_add_tag(old(conn)@, node_id@, tag_name@, new_id@).1,
{
    let ghost before = conn@;
    let mut t = conn.take();
    let r = tables::add_tag_with(&mut t, new_id, node_id, tag_name);
    proof {
        lemma_add_tag_keeps_wf(before, node_id@, tag_name@, new_id@);
    }
    conn.put(t);
    r
}

/// Removes tag `tag_name` from node `node_id`, or fails when the node does
/// not carry it.
pub fn remove_tag(conn: &mut Store, node_id: &str, tag_name: &str) -> (r: DbResult<()>)
    ensures
        final(conn)@ == spec_remove_tag(old(conn)@, node_id@, tag_name@).0,
        unit_view(r) == spec_remove_tag(old(conn)@, node_id@, tag_name@).1,
{
    let ghost before = conn@;
    let mut t = conn.take();
    let r = tables::remove_tag(&mut t, node_id, tag_name);
    proof {
        lemma_remove_tag_keeps_wf(before, node_id@, tag_name@);
    }
    conn.put(t);
    r
}

/// Creates a node of `node_type` titled `title`, under `parent_id` if given.
/// The node's id, its parent link's id and the timestamp are drawn fresh;
/// with them the outcome is exactly that of `create_node_with`.
pub fn create_node(
    conn: &mut Store,
    node_type: NodeType,
    title: &str,
    parent_id: Option<&str>,
) -> (r: DbResult<Node>)
    ensures
        exists|id: Seq<char>, edge_id: Seq<char>, now: Seq<char>|
            #![trigger spec_create_node(old(conn)@, node_type, title@, opt_str(parent_id), id, edge_id, now)]
            is_ulid_text(id) && (parent_id is Some ==> is_ulid_text(edge_id)) && is_utc_stamp(now)
                && final(conn)@ == spec_create_node(
                old(conn)@,
                node_type,
                title@,
                opt_str(parent_id),
                id,
                edge_id,
                now,
            ).0 && res_view(r) == spec_create_node(
                old(conn)@,
                node_type,
                title@,
                opt_str(parent_id),
                id,
                edge_id,
                now,
            ).1,
{
    let id = new_id();
    let now = now_iso();
    let edge_id = if parent_id.is_some() {
        new_id()
    } else {
        String::new()
    };
    create_node_with(conn, id.as_str(), edge_id.as_str(), now.as_str(), node_type, title, parent_id)
}

/// Updates the fields given of node `id`. The timestamp and, on a status
/// change, the history entry's id are drawn fresh; with them the outcome is
/// exactly that of `update_node_with`.
pub fn update_node(
    conn: &mut Store,
    id: &str,
    title: Option<&str>,
    description: Option<&str>,
    status: Option<NodeStatus>,
    sort_order: Option<i32>,
) -> (r: DbResult<Node>)
    ensures
        exists|now: Seq<char>, hist_id: Seq<char>|
            #![trigger spec_update_node(old(conn)@, id@, opt_str(title), opt_str(description), status, sort_order, now, hist_id)]
            is_utc_stamp(now) && is_ulid_text(hist_id) && final(conn)@ == spec_update_node(
                old(conn)@,
                id@,
                opt_str(title),
                opt_str(description),
                status,
                sort_order,
                now,
                hist_id,
            ).0 && res_view(r) == spec_update_node(
                old(conn)@,
                id@,
                opt_str(title),
                opt_str(description),
                status,
                sort_order,
                now,
                hist_id,
            ).1,
{
    let now = now_iso();
    let hist_id = new_id();
    update_node_with(conn, id, title, description, status, sort_order, now.as_str(), hist_id.as_str())
}

/// Links two nodes; the edge's identifier and timestamp are drawn fresh,
/// and with them the outcome is exactly that of `create_edge_with`.
pub fn create_edge(
    conn: &mut Store,
    source_id: &str,
    target_id: &str,
    edge_type: EdgeType,
) -> (r: DbResult<Edge>)
    ensures
        exists|id: Seq<char>, now: Seq<char>|
            #![trigger spec_create_edge(old(conn)@, source_id@, target_id@, edge_type, id, now)]
            is_ulid_text(id) && is_utc_stamp(now) && final(conn)@ == spec_create_edge(
                old(conn)@,
                source_id@,
                target_id@,
                edge_type,
                id,
                now,
            ).0 && res_view(r) == spec_create_edge(
                old(conn)@,
                source_id@,
                target_id@,
                edge_type,
                id,
                now,
            ).1,
{
    let id = new_id();
    let now = now_iso();
    create_edge_with(conn, id.as_str(), now.as_str(), source_id, target_id, edge_type)
}

/// Tags a node; a tag that is new gets a fresh identifier, and with it the
/// outcome is exactly that of `add_tag_with`.
pub fn add_tag(conn: &mut Store, node_id: &str, tag_name: &str) -> (r: DbResult<Tag>)
    ensures
        exists|new_id: Seq<char>|
            #![trigger spec_add_tag(old(conn)@, node_id@, tag_name@, new_id)]
            is_ulid_text(new_id) && final(conn)@ == spec_add_tag(
                old(conn)@,
                node_id@,
                tag_name@,
                new_id,
            ).0 && res_view(r) == spec_add_tag(old(conn)@, node_id@, tag_name@, new_id).1,
{
    let new_id = new_id();
    add_tag_with(conn, new_id.as_str(), node_id, tag_name)
}

} // verus!
