//! What holds of the queries together: reading back what was written, the
//! hierarchy rule, the status log, the cascade of a delete, the dependency
//! graph staying free of cycles, and tagging; and what single answers mean
//! over the rows themselves (progress counts, the tag filter, which edge or
//! link a delete removes, which title a reference resolves to).
use vstd::prelude::*;
use crate::db::{DbErrorView, StoreView};
use crate::graph::{
    acyclic, has_edge, lemma_add_edge_keeps_acyclic, lemma_sub_keeps_acyclic, reachable,
};
use crate::models::{
    node_status_name, spec_child_type, EdgeType, EdgeView, HistoryView, Node, NodeStatus,
    NodeType, NodeView, TagView,
};
use crate::rows::pairwise;
use crate::text::ascii_lower;
use crate::order::{is_ranked, lemma_ranked_is_ranked, lemma_ranked_permutes, ranked};
use crate::tables::{
    apply_update, child_filter, default_color, has_node, has_tag_id, has_tag_name, is_first_node,
    is_first_tag, lemma_first_node, lemma_first_tag, lemma_has_first_node, link_tag, list_filter,
    lookup_node, lookup_tag, new_node_view, spec_add_tag, spec_create_edge, spec_create_node,
    spec_delete_edge, spec_delete_node, spec_get_children, spec_get_node, spec_list_nodes,
    spec_node_detail, spec_progress, spec_remove_tag, spec_resolve_node, spec_update_node,
    subtree, title_matches,
    update_rows, updated_fields,
};

verus! {

broadcast use vstd::seq_lib::group_filter_ensures;

// ---------------------------------------------------------------------------
// Creating nodes
// ---------------------------------------------------------------------------

/// A created node reads back as created: with its type's template, active,
/// first in order and stamped with the time of creation.
pub proof fn lemma_create_then_get(
    db: StoreView,
    node_type: NodeType,
    title: Seq<char>,
    parent: Option<Seq<char>>,
    id: Seq<char>,
    edge_id: Seq<char>,
    now: Seq<char>,
)
    requires
        spec_create_node(db, node_type, title, parent, id, edge_id, now).1 is Ok,
    ensures
        spec_create_node(db, node_type, title, parent, id, edge_id, now).1 == Ok::<
            NodeView,
            DbErrorView,
        >(new_node_view(id, node_type, title, now)),
        spec_get_node(spec_create_node(db, node_type, title, parent, id, edge_id, now).0, id)
            == spec_create_node(db, node_type, title, parent, id, edge_id, now).1,
{
    let out = spec_create_node(db, node_type, title, parent, id, edge_id, now).0;
    assert(!has_node(db.nodes, id));
    assert(out.nodes == db.nodes.push(new_node_view(id, node_type, title, now)));
    assert(is_first_node(out.nodes, id, db.nodes.len() as int));
    lemma_first_node(out.nodes, id, db.nodes.len() as int);
}

/// A node created under a parent is of the one type that the parent may
/// hold, is linked to it by a parent edge, and is listed among its children.
pub proof fn lemma_create_respects_hierarchy(
    db: StoreView,
    node_type: NodeType,
    title: Seq<char>,
    pid: Seq<char>,
    id: Seq<char>,
    edge_id: Seq<char>,
    now: Seq<char>,
)
    requires
        spec_create_node(db, node_type, title, Some(pid), id, edge_id, now).1 is Ok,
    ensures
        lookup_node(db.nodes, pid) matches Some(p) && spec_child_type(p.node_type) == Some(
            node_type,
        ),
        has_edge(
            spec_create_node(db, node_type, title, Some(pid), id, edge_id, now).0.edges,
            EdgeType::Parent,
            pid,
            id,
        ),
        spec_get_children(
            spec_create_node(db, node_type, title, Some(pid), id, edge_id, now).0,
            pid,
        ).contains(new_node_view(id, node_type, title, now)),
{
    let out = spec_create_node(db, node_type, title, Some(pid), id, edge_id, now).0;
    let n = new_node_view(id, node_type, title, now);
    let k = db.edges.len() as int;
    assert(out.edges[k].edge_type == EdgeType::Parent);
    assert(has_edge(out.edges, EdgeType::Parent, pid, id));
    let i = db.nodes.len() as int;
    assert(out.nodes[i] == n);
    assert(child_filter(out, pid)(out.nodes[i]));
    let f = out.nodes.filter(child_filter(out, pid));
    assert(f.contains(n));
    lemma_ranked_permutes::<Node>(f);
    broadcast use vstd::seq_lib::group_to_multiset_ensures;
    assert(f.to_multiset().count(n) > 0);
    assert(ranked::<Node>(f).to_multiset().count(n) > 0);
}

// ---------------------------------------------------------------------------
// Listing
// ---------------------------------------------------------------------------

/// `list_nodes` returns exactly the matching nodes, each as often as it is
/// stored, in order of `sort_order`, then `created_at`.
pub proof fn lemma_list_nodes_exact(
    db: StoreView,
    node_type: NodeType,
    parent: Option<Seq<char>>,
    status: Option<NodeStatus>,
    tag: Option<Seq<char>>,
)
    ensures
        spec_list_nodes(db, node_type, parent, status, tag).to_multiset() == db.nodes.filter(
            list_filter(db, node_type, parent, status, tag),
        ).to_multiset(),
        is_ranked::<Node>(spec_list_nodes(db, node_type, parent, status, tag)),
        forall|n: NodeView|
            spec_list_nodes(db, node_type, parent, status, tag).contains(n) <==> (
            db.nodes.contains(n) && list_filter(db, node_type, parent, status, tag)(n)),
{
    broadcast use vstd::seq_lib::group_to_multiset_ensures;

    let pred = list_filter(db, node_type, parent, status, tag);
    let f = db.nodes.filter(pred);
    lemma_ranked_permutes::<Node>(f);
    lemma_ranked_is_ranked::<Node>(f);
    let r = ranked::<Node>(f);
    assert forall|n: NodeView| r.contains(n) <==> (db.nodes.contains(n) && pred(n)) by {
        assert(r.contains(n) <==> r.to_multiset().count(n) > 0);
        assert(f.contains(n) <==> f.to_multiset().count(n) > 0);
        if f.contains(n) {
            let i = choose|i: int| 0 <= i < f.len() && f[i] == n;
            assert(pred(f[i]));
            db.nodes.lemma_filter_contains_rev(pred, n);
        }
        if db.nodes.contains(n) && pred(n) {
            let i = choose|i: int| 0 <= i < db.nodes.len() && db.nodes[i] == n;
            assert(f.contains(db.nodes[i]));
        }
    }
}

// ---------------------------------------------------------------------------
// Updating
// ---------------------------------------------------------------------------

/// A successful update reads back as written, and the status log grows by
/// one entry (old and new status, time of change) exactly when the status
/// changes.
pub proof fn lemma_update_logs_status_change(
    db: StoreView,
    id: Seq<char>,
    title: Option<Seq<char>>,
    description: Option<Seq<char>>,
    status: Option<NodeStatus>,
    sort_order: Option<i32>,
    now: Seq<char>,
    hist_id: Seq<char>,
)
    requires
        spec_update_node(db, id, title, description, status, sort_order, now, hist_id).1 is Ok,
    ensures
        lookup_node(db.nodes, id) matches Some(existing) && ({
            let out = spec_update_node(
                db,
                id,
                title,
                description,
                status,
                sort_order,
                now,
                hist_id,
            );
            &&& spec_get_node(out.0, id) == out.1
            &&& if status is Some && status->0 != existing.status {
                out.0.history == db.history.push(
                    HistoryView {
                        id: hist_id,
                        node_id: id,
                        old_status: node_status_name(existing.status),
                        new_status: node_status_name(status->0),
                        changed_at: now,
                    },
                )
            } else {
                out.0.history == db.history
            }
        }),
{
    let existing = lookup_node(db.nodes, id)->Some_0;
    let u = updated_fields(existing, title, description, status, sort_order, now);
    let k = choose|k: int| 0 <= k < db.nodes.len() && #[trigger] db.nodes[k].id == id;
    let i = lemma_has_first_node(db.nodes, id, k);
    let rows = update_rows(db.nodes, id, u);
    assert(is_first_node(rows, id, i)) by {
        assert forall|j: int| 0 <= j < i implies #[trigger] rows[j].id != id by {
            assert(db.nodes[j].id != id);
        }
    }
    lemma_first_node(rows, id, i);
    assert(rows[i] == apply_update(db.nodes[i], u));
    assert(apply_update(db.nodes[i], u) == u);
}

// ---------------------------------------------------------------------------
// Deleting
// ---------------------------------------------------------------------------

/// After a delete, neither the node nor anything below it through parent
/// edges remains, and no edge, tag link or history entry refers to them.
pub proof fn lemma_delete_cascades(db: StoreView, id: Seq<char>, x: Seq<char>)
    requires
        spec_delete_node(db, id).1 is Ok,
        reachable(db.edges, EdgeType::Parent, id, x),
    ensures
        !has_node(spec_delete_node(db, id).0.nodes, x),
        spec_get_node(spec_delete_node(db, id).0, x) is Err,
        forall|k: int|
            0 <= k < spec_delete_node(db, id).0.edges.len() ==> (#[trigger] spec_delete_node(
                db,
                id,
            ).0.edges[k]).source_id != x && spec_delete_node(db, id).0.edges[k].target_id != x,
        forall|k: int|
            0 <= k < spec_delete_node(db, id).0.node_tags.len() ==> (#[trigger] spec_delete_node(
                db,
                id,
            ).0.node_tags[k]).0 != x,
        forall|k: int|
            0 <= k < spec_delete_node(db, id).0.history.len() ==> (#[trigger] spec_delete_node(
                db,
                id,
            ).0.history[k]).node_id != x,
{
    let out = spec_delete_node(db, id).0;
    let gone = subtree(db, id);
    assert(gone(x));
    assert forall|k: int| 0 <= k < out.nodes.len() implies #[trigger] out.nodes[k].id != x by {
        assert(crate::tables::keep_node(gone)(out.nodes[k]));
    }
    assert forall|k: int| 0 <= k < out.edges.len() implies (#[trigger] out.edges[k]).source_id
        != x && out.edges[k].target_id != x by {
        assert(crate::tables::keep_edge(gone)(out.edges[k]));
    }
    assert forall|k: int| 0 <= k < out.node_tags.len() implies (#[trigger] out.node_tags[k]).0
        != x by {
        assert(crate::tables::keep_link(gone)(out.node_tags[k]));
    }
    assert forall|k: int| 0 <= k < out.history.len() implies (#[trigger] out.history[k]).node_id
        != x by {
        assert(crate::tables::keep_entry(gone)(out.history[k]));
    }
}

/// A delete spares every node that is not below the deleted one.
pub proof fn lemma_delete_spares_others(db: StoreView, id: Seq<char>, y: NodeView)
    requires
        spec_delete_node(db, id).1 is Ok,
        db.nodes.contains(y),
        !reachable(db.edges, EdgeType::Parent, id, y.id),
    ensures
        spec_delete_node(db, id).0.nodes.contains(y),
{
    let gone = subtree(db, id);
    let i = choose|i: int| 0 <= i < db.nodes.len() && db.nodes[i] == y;
    assert(crate::tables::keep_node(gone)(db.nodes[i]));
}

// ---------------------------------------------------------------------------
// The dependency graph stays free of cycles
// ---------------------------------------------------------------------------

/// A created edge never closes a cycle of `Blocks` edges.
pub proof fn lemma_create_edge_keeps_blocks_acyclic(
    db: StoreView,
    source: Seq<char>,
    target: Seq<char>,
    edge_type: EdgeType,
    id: Seq<char>,
    now: Seq<char>,
)
    requires
        acyclic(db.edges, EdgeType::Blocks),
    ensures
        acyclic(spec_create_edge(db, source, target, edge_type, id, now).0.edges, EdgeType::Blocks),
{
    let out = spec_create_edge(db, source, target, edge_type, id, now);
    if out.1 is Ok {
        let e = EdgeView { id, source_id: source, target_id: target, edge_type, created_at: now };
        assert(out.0.edges == db.edges.push(e));
        lemma_add_edge_keeps_acyclic(db.edges, e, EdgeType::Blocks);
    }
}

/// Creating a node adds at most a parent edge, so the `Blocks` edges stay
/// free of cycles.
pub proof fn lemma_create_node_keeps_blocks_acyclic(
    db: StoreView,
    node_type: NodeType,
    title: Seq<char>,
    parent: Option<Seq<char>>,
    id: Seq<char>,
    edge_id: Seq<char>,
    now: Seq<char>,
)
    requires
        acyclic(db.edges, EdgeType::Blocks),
    ensures
        acyclic(
            spec_create_node(db, node_type, title, parent, id, edge_id, now).0.edges,
            EdgeType::Blocks,
        ),
{
    let out = spec_create_node(db, node_type, title, parent, id, edge_id, now);
    if out.1 is Ok && parent is Some {
        let e = EdgeView {
            id: edge_id,
            source_id: parent->0,
            target_id: id,
            edge_type: EdgeType::Parent,
            created_at: now,
        };
        assert(out.0.edges == db.edges.push(e));
        lemma_add_edge_keeps_acyclic(db.edges, e, EdgeType::Blocks);
    }
}

/// Deleting a node only removes edges, so the `Blocks` edges stay free of
/// cycles.
pub proof fn lemma_delete_node_keeps_blocks_acyclic(db: StoreView, id: Seq<char>)
    requires
        acyclic(db.edges, EdgeType::Blocks),
    ensures
        acyclic(spec_delete_node(db, id).0.edges, EdgeType::Blocks),
{
    let out = spec_delete_node(db, id).0;
    if spec_delete_node(db, id).1 is Ok {
        let pred = crate::tables::keep_edge(subtree(db, id));
        assert forall|k: int| 0 <= k < out.edges.len() implies db.edges.contains(
            #[trigger] out.edges[k],
        ) by {
            assert(db.edges.filter(pred).contains(out.edges[k]));
            db.edges.lemma_filter_contains_rev(pred, out.edges[k]);
        }
        lemma_sub_keeps_acyclic(out.edges, db.edges, EdgeType::Blocks);
    }
}

/// Deleting an edge keeps the `Blocks` edges free of cycles.
pub proof fn lemma_delete_edge_keeps_blocks_acyclic(
    db: StoreView,
    source: Seq<char>,
    edge_type: EdgeType,
    target: Seq<char>,
)
    requires
        acyclic(db.edges, EdgeType::Blocks),
    ensures
        acyclic(spec_delete_edge(db, source, edge_type, target).0.edges, EdgeType::Blocks),
{
    let out = spec_delete_edge(db, source, edge_type, target).0;
    if spec_delete_edge(db, source, edge_type, target).1 is Ok {
        let pred = crate::tables::not_this_edge(source, target, edge_type);
        assert forall|k: int| 0 <= k < out.edges.len() implies db.edges.contains(
            #[trigger] out.edges[k],
        ) by {
            assert(db.edges.filter(pred).contains(out.edges[k]));
            db.edges.lemma_filter_contains_rev(pred, out.edges[k]);
        }
        lemma_sub_keeps_acyclic(out.edges, db.edges, EdgeType::Blocks);
    }
}

/// A `Blocks` edge is refused exactly when its target already reaches its
/// source (both nodes existing): the refusal names the cycle.
pub proof fn lemma_cycle_refused(
    db: StoreView,
    source: Seq<char>,
    target: Seq<char>,
    id: Seq<char>,
    now: Seq<char>,
)
    requires
        has_node(db.nodes, source),
        has_node(db.nodes, target),
    ensures
        spec_create_edge(db, source, target, EdgeType::Blocks, id, now).1 == Err::<
            EdgeView,
            DbErrorView,
        >(DbErrorView::Custom(crate::tables::msg_cycle())) <==> reachable(
            db.edges,
            EdgeType::Blocks,
            target,
            source,
        ),
{
}

// ---------------------------------------------------------------------------
// Tags
// ---------------------------------------------------------------------------

/// Tagging a node a second time with the same name changes nothing and
/// answers the same tag.
pub proof fn lemma_add_tag_idempotent(
    db: StoreView,
    node_id: Seq<char>,
    name: Seq<char>,
    id1: Seq<char>,
    id2: Seq<char>,
)
    requires
        spec_add_tag(db, node_id, name, id1).1 is Ok,
    ensures
        spec_add_tag(spec_add_tag(db, node_id, name, id1).0, node_id, name, id2) == spec_add_tag(
            db,
            node_id,
            name,
            id1,
        ),
{
    let out = spec_add_tag(db, node_id, name, id1);
    let db1 = out.0;
    assert(db1.nodes == db.nodes);
    match lookup_tag(db.tags, name) {
        Some(t) => {
            assert(db1.tags == db.tags);
            assert(db1.node_tags.contains((node_id, t.id))) by {
                if !db.node_tags.contains((node_id, t.id)) {
                    assert(db1.node_tags[db.node_tags.len() as int] == (node_id, t.id));
                }
            }
            assert(link_tag(db1, node_id, t.id) == db1);
        },
        None => {
            let tag = TagView { id: id1, name, color: default_color() };
            let tags1 = db.tags.push(tag);
            assert(db1.tags == tags1);
            assert(is_first_tag(tags1, name, db.tags.len() as int)) by {
                assert forall|j: int| 0 <= j < db.tags.len() implies #[trigger] tags1[j].name
                    != name by {
                    assert(tags1[j] == db.tags[j]);
                    assert(!has_tag_name(db.tags, name));
                }
            }
            lemma_first_tag(tags1, name, db.tags.len() as int);
            assert(db1.node_tags.contains((node_id, id1))) by {
                let mid = crate::db::StoreView { tags: tags1, ..db };
                if !mid.node_tags.contains((node_id, id1)) {
                    assert(db1.node_tags[db.node_tags.len() as int] == (node_id, id1));
                }
            }
            assert(link_tag(db1, node_id, id1) == db1);
        },
    }
}

/// Removing a tag that a node carries takes the link away.
pub proof fn lemma_remove_tag_unlinks(db: StoreView, node_id: Seq<char>, name: Seq<char>)
    requires
        spec_remove_tag(db, node_id, name).1 is Ok,
    ensures
        lookup_tag(db.tags, name) matches Some(t) && !spec_remove_tag(
            db,
            node_id,
            name,
        ).0.node_tags.contains((node_id, t.id)),
{
    let t = lookup_tag(db.tags, name)->Some_0;
    let pred = crate::tables::not_this_link(node_id, t.id);
    let out = spec_remove_tag(db, node_id, name).0;
    if out.node_tags.contains((node_id, t.id)) {
        let i = choose|i: int| 0 <= i < out.node_tags.len() && out.node_tags[i] == (node_id, t.id);
        assert(pred(db.node_tags.filter(pred)[i]));
    }
}

// ---------------------------------------------------------------------------
// Resolving and progress
// ---------------------------------------------------------------------------

/// A resolved reference always names an existing node.
pub proof fn lemma_resolved_names_a_node(db: StoreView, x: Seq<char>)
    requires
        spec_resolve_node(db, x) is Ok,
    ensures
        has_node(db.nodes, spec_resolve_node(db, x)->Ok_0),
{
    if !has_node(db.nodes, x) {
        let ms = db.nodes.filter(title_matches(x));
        assert(ms.contains(ms[0]));
        db.nodes.lemma_filter_contains_rev(title_matches(x), ms[0]);
        let i = choose|i: int| 0 <= i < db.nodes.len() && db.nodes[i] == ms[0];
        assert(db.nodes[i].id == ms[0].id);
    }
}

/// Progress counts at most as many completed children as there are
/// children, and is absent exactly when there are none.
pub proof fn lemma_progress_bounds(children: Seq<NodeView>)
    ensures
        spec_progress(children) is None <==> children.len() == 0,
        spec_progress(children) matches Some(p) ==> p.0 <= p.1 && p.1 == children.len(),
{
}

// ---------------------------------------------------------------------------
// The constraints of the tables hold after every query
// ---------------------------------------------------------------------------

pub open spec fn distinct_nodes() -> spec_fn(NodeView, NodeView) -> bool {
    |a: NodeView, b: NodeView| a.id != b.id
}

pub open spec fn distinct_edges() -> spec_fn(EdgeView, EdgeView) -> bool {
    |a: EdgeView, b: EdgeView|
        a.id != b.id && !(a.source_id == b.source_id && a.target_id == b.target_id && a.edge_type
            == b.edge_type)
}

pub open spec fn distinct_tags() -> spec_fn(TagView, TagView) -> bool {
    |a: TagView, b: TagView| a.id != b.id && a.name != b.name
}

pub open spec fn distinct_links() -> spec_fn((Seq<char>, Seq<char>), (Seq<char>, Seq<char>)) -> bool {
    |a: (Seq<char>, Seq<char>), b: (Seq<char>, Seq<char>)| a != b
}

pub open spec fn distinct_entries() -> spec_fn(HistoryView, HistoryView) -> bool {
    |a: HistoryView, b: HistoryView| a.id != b.id
}

/// The constraints of the schema: primary keys and unique columns are unique,
/// and every foreign key names an existing row.
pub open spec fn wf(db: StoreView) -> bool {
    &&& pairwise(db.nodes, distinct_nodes())
    &&& pairwise(db.edges, distinct_edges())
    &&& pairwise(db.tags, distinct_tags())
    &&& pairwise(db.node_tags, distinct_links())
    &&& pairwise(db.history, distinct_entries())
    &&& forall|k: int|
        0 <= k < db.edges.len() ==> has_node(db.nodes, (#[trigger] db.edges[k]).source_id)
            && has_node(db.nodes, db.edges[k].target_id)
    &&& forall|k: int|
        0 <= k < db.node_tags.len() ==> has_node(db.nodes, (#[trigger] db.node_tags[k]).0)
            && has_tag_id(db.tags, db.node_tags[k].1)
    &&& forall|k: int|
        0 <= k < db.history.len() ==> has_node(db.nodes, (#[trigger] db.history[k]).node_id)
}

/// Keeping some rows keeps every two of them related.
pub proof fn lemma_filter_pairwise<A>(s: Seq<A>, keep: spec_fn(A) -> bool, p: spec_fn(A, A) -> bool)
    requires
        pairwise(s, p),
    ensures
        pairwise(s.filter(keep), p),
    decreases s.len(),
{
    reveal(Seq::filter);
    if s.len() > 0 {
        let d = s.drop_last();
        let x = s.last();
        assert(pairwise(d, p)) by {
            assert forall|i: int, j: int| 0 <= i < j < d.len() implies #[trigger] p(d[i], d[j]) by {
                assert(p(s[i], s[j]));
            }
        }
        lemma_filter_pairwise(d, keep, p);
        if keep(x) {
            let f = d.filter(keep);
            let g = f.push(x);
            assert(s.filter(keep) == g);
            assert forall|i: int, j: int| 0 <= i < j < g.len() implies #[trigger] p(g[i], g[j]) by {
                if j < f.len() {
                    assert(g[i] == f[i] && g[j] == f[j]);
                } else {
                    assert(g[i] == f[i] && g[j] == x);
                    assert(f.contains(f[i]));
                    d.lemma_filter_contains_rev(keep, f[i]);
                    let k = choose|k: int| 0 <= k < d.len() && d[k] == f[i];
                    assert(p(s[k], s[s.len() - 1]));
                }
            }
        }
    }
}

/// Appending a row related to every earlier one keeps every two related.
pub proof fn lemma_push_pairwise<A>(s: Seq<A>, x: A, p: spec_fn(A, A) -> bool)
    requires
        pairwise(s, p),
        forall|i: int| 0 <= i < s.len() ==> p(#[trigger] s[i], x),
    ensures
        pairwise(s.push(x), p),
{
    let g = s.push(x);
    assert forall|i: int, j: int| 0 <= i < j < g.len() implies #[trigger] p(g[i], g[j]) by {
        assert(g[i] == s[i]);
        if j < s.len() {
            assert(g[j] == s[j]);
            assert(p(s[i], s[j]));
        } else {
            assert(g[j] == x);
        }
    }
}

proof fn lemma_has_node_push(ns: Seq<NodeView>, x: NodeView, id: Seq<char>)
    requires
        has_node(ns, id),
    ensures
        has_node(ns.push(x), id),
{
    let i = choose|i: int| 0 <= i < ns.len() && #[trigger] ns[i].id == id;
    assert(ns.push(x)[i].id == id);
}

/// Creating a node keeps the constraints.
pub proof fn lemma_create_node_keeps_wf(
    db: StoreView,
    node_type: NodeType,
    title: Seq<char>,
    parent: Option<Seq<char>>,
    id: Seq<char>,
    edge_id: Seq<char>,
    now: Seq<char>,
)
    requires
        wf(db),
    ensures
        wf(spec_create_node(db, node_type, title, parent, id, edge_id, now).0),
{
    let out = spec_create_node(db, node_type, title, parent, id, edge_id, now);
    if out.1 is Ok {
        let n = new_node_view(id, node_type, title, now);
        let ns = db.nodes.push(n);
        assert(out.0.nodes == ns);
        assert forall|i: int| 0 <= i < db.nodes.len() implies distinct_nodes()(
            #[trigger] db.nodes[i],
            n,
        ) by {
            assert(!has_node(db.nodes, id));
        }
        lemma_push_pairwise(db.nodes, n, distinct_nodes());
        assert(has_node(ns, id)) by {
            assert(ns[db.nodes.len() as int].id == id);
        }
        assert forall|y: Seq<char>| has_node(db.nodes, y) implies has_node(ns, y) by {
            lemma_has_node_push(db.nodes, n, y);
        }
        if parent is Some {
            let pid = parent->0;
            let e = EdgeView {
                id: edge_id,
                source_id: pid,
                target_id: id,
                edge_type: EdgeType::Parent,
                created_at: now,
            };
            assert(out.0.edges == db.edges.push(e));
            assert forall|i: int| 0 <= i < db.edges.len() implies distinct_edges()(
                #[trigger] db.edges[i],
                e,
            ) by {
                assert(db.edges[i].id != edge_id);
                if db.edges[i].source_id == pid && db.edges[i].target_id == id
                    && db.edges[i].edge_type == EdgeType::Parent {
                    assert(has_edge(db.edges, EdgeType::Parent, pid, id));
                }
            }
            lemma_push_pairwise(db.edges, e, distinct_edges());
            assert(has_node(db.nodes, pid));
            let es = db.edges.push(e);
            assert forall|k: int| 0 <= k < es.len() implies has_node(
                ns,
                (#[trigger] es[k]).source_id,
            ) && has_node(ns, es[k].target_id) by {
                if k < db.edges.len() {
                    assert(es[k] == db.edges[k]);
                }
            }
        }
    }
}

/// Updating a node keeps the constraints.
pub proof fn lemma_update_node_keeps_wf(
    db: StoreView,
    id: Seq<char>,
    title: Option<Seq<char>>,
    description: Option<Seq<char>>,
    status: Option<NodeStatus>,
    sort_order: Option<i32>,
    now: Seq<char>,
    hist_id: Seq<char>,
)
    requires
        wf(db),
    ensures
        wf(spec_update_node(db, id, title, description, status, sort_order, now, hist_id).0),
{
    let out = spec_update_node(db, id, title, description, status, sort_order, now, hist_id);
    if lookup_node(db.nodes, id) is Some {
        let existing = lookup_node(db.nodes, id)->Some_0;
        let u = updated_fields(existing, title, description, status, sort_order, now);
        let rows = update_rows(db.nodes, id, u);
        assert(out.0.nodes == rows);
        assert forall|i: int| 0 <= i < rows.len() implies (#[trigger] rows[i]).id == db.nodes[i].id by {
        }
        assert forall|i: int, j: int| 0 <= i < j < rows.len() implies #[trigger] distinct_nodes()(
            rows[i],
            rows[j],
        ) by {
            assert(distinct_nodes()(db.nodes[i], db.nodes[j]));
            assert(rows[i].id == db.nodes[i].id);
            assert(rows[j].id == db.nodes[j].id);
        }
        assert forall|y: Seq<char>| has_node(db.nodes, y) implies has_node(rows, y) by {
            let i = choose|i: int| 0 <= i < db.nodes.len() && #[trigger] db.nodes[i].id == y;
            assert(rows[i].id == y);
        }
        if out.0.history != db.history {
            let h = HistoryView {
                id: hist_id,
                node_id: id,
                old_status: node_status_name(existing.status),
                new_status: node_status_name(u.status),
                changed_at: now,
            };
            assert(out.0.history == db.history.push(h));
            assert forall|i: int| 0 <= i < db.history.len() implies distinct_entries()(
                #[trigger] db.history[i],
                h,
            ) by {
                assert(db.history[i].id != hist_id);
            }
            lemma_push_pairwise(db.history, h, distinct_entries());
            assert(has_node(db.nodes, id));
            let hs = db.history.push(h);
            assert forall|k: int| 0 <= k < hs.len() implies has_node(
                rows,
                (#[trigger] hs[k]).node_id,
            ) by {
                if k < db.history.len() {
                    assert(hs[k] == db.history[k]);
                }
            }
        }
    }
}

/// Deleting a node keeps the constraints: the cascade leaves no row that
/// refers to a deleted node.
pub proof fn lemma_delete_node_keeps_wf(db: StoreView, id: Seq<char>)
    requires
        wf(db),
    ensures
        wf(spec_delete_node(db, id).0),
{
    let out = spec_delete_node(db, id).0;
    if spec_delete_node(db, id).1 is Ok {
        let gone = subtree(db, id);
        let kn = crate::tables::keep_node(gone);
        let ke = crate::tables::keep_edge(gone);
        let kl = crate::tables::keep_link(gone);
        let kh = crate::tables::keep_entry(gone);
        lemma_filter_pairwise(db.nodes, kn, distinct_nodes());
        lemma_filter_pairwise(db.edges, ke, distinct_edges());
        lemma_filter_pairwise(db.node_tags, kl, distinct_links());
        lemma_filter_pairwise(db.history, kh, distinct_entries());
        assert forall|y: Seq<char>| has_node(db.nodes, y) && !gone(y) implies has_node(
            out.nodes,
            y,
        ) by {
            let i = choose|i: int| 0 <= i < db.nodes.len() && #[trigger] db.nodes[i].id == y;
            assert(kn(db.nodes[i]));
            assert(out.nodes.contains(db.nodes[i]));
            let j = choose|j: int| 0 <= j < out.nodes.len() && out.nodes[j] == db.nodes[i];
            assert(out.nodes[j].id == y);
        }
        assert forall|k: int| 0 <= k < out.edges.len() implies has_node(
            out.nodes,
            (#[trigger] out.edges[k]).source_id,
        ) && has_node(out.nodes, out.edges[k].target_id) by {
            assert(ke(out.edges[k]));
            assert(out.edges.contains(out.edges[k]));
            db.edges.lemma_filter_contains_rev(ke, out.edges[k]);
            let j = choose|j: int| 0 <= j < db.edges.len() && db.edges[j] == out.edges[k];
            assert(has_node(db.nodes, db.edges[j].source_id));
        }
        assert forall|k: int| 0 <= k < out.node_tags.len() implies has_node(
            out.nodes,
            (#[trigger] out.node_tags[k]).0,
        ) && has_tag_id(out.tags, out.node_tags[k].1) by {
            assert(kl(out.node_tags[k]));
            assert(out.node_tags.contains(out.node_tags[k]));
            db.node_tags.lemma_filter_contains_rev(kl, out.node_tags[k]);
            let j = choose|j: int| 0 <= j < db.node_tags.len() && db.node_tags[j] == out.node_tags[k];
            assert(has_node(db.nodes, db.node_tags[j].0));
        }
        assert forall|k: int| 0 <= k < out.history.len() implies has_node(
            out.nodes,
            (#[trigger] out.history[k]).node_id,
        ) by {
            assert(kh(out.history[k]));
            assert(out.history.contains(out.history[k]));
            db.history.lemma_filter_contains_rev(kh, out.history[k]);
            let j = choose|j: int| 0 <= j < db.history.len() && db.history[j] == out.history[k];
            assert(has_node(db.nodes, db.history[j].node_id));
        }
    }
}

/// Creating an edge keeps the constraints.
pub proof fn lemma_create_edge_keeps_wf(
    db: StoreView,
    source: Seq<char>,
    target: Seq<char>,
    edge_type: EdgeType,
    id: Seq<char>,
    now: Seq<char>,
)
    requires
        wf(db),
    ensures
        wf(spec_create_edge(db, source, target, edge_type, id, now).0),
{
    let out = spec_create_edge(db, source, target, edge_type, id, now);
    if out.1 is Ok {
        let e = EdgeView { id, source_id: source, target_id: target, edge_type, created_at: now };
        assert(out.0.edges == db.edges.push(e));
        assert forall|i: int| 0 <= i < db.edges.len() implies distinct_edges()(
            #[trigger] db.edges[i],
            e,
        ) by {
            assert(db.edges[i].id != id);
            if db.edges[i].source_id == source && db.edges[i].target_id == target
                && db.edges[i].edge_type == edge_type {
                assert(has_edge(db.edges, edge_type, source, target));
            }
        }
        lemma_push_pairwise(db.edges, e, distinct_edges());
        let es = db.edges.push(e);
        assert forall|k: int| 0 <= k < es.len() implies has_node(
            db.nodes,
            (#[trigger] es[k]).source_id,
        ) && has_node(db.nodes, es[k].target_id) by {
            if k < db.edges.len() {
                assert(es[k] == db.edges[k]);
            }
        }
    }
}

/// Deleting an edge keeps the constraints.
pub proof fn lemma_delete_edge_keeps_wf(
    db: StoreView,
    source: Seq<char>,
    edge_type: EdgeType,
    target: Seq<char>,
)
    requires
        wf(db),
    ensures
        wf(spec_delete_edge(db, source, edge_type, target).0),
{
    let out = spec_delete_edge(db, source, edge_type, target).0;
    if spec_delete_edge(db, source, edge_type, target).1 is Ok {
        let pred = crate::tables::not_this_edge(source, target, edge_type);
        lemma_filter_pairwise(db.edges, pred, distinct_edges());
        assert forall|k: int| 0 <= k < out.edges.len() implies has_node(
            out.nodes,
            (#[trigger] out.edges[k]).source_id,
        ) && has_node(out.nodes, out.edges[k].target_id) by {
            assert(out.edges.contains(out.edges[k]));
            db.edges.lemma_filter_contains_rev(pred, out.edges[k]);
            let j = choose|j: int| 0 <= j < db.edges.len() && db.edges[j] == out.edges[k];
            assert(has_node(db.nodes, db.edges[j].source_id));
        }
    }
}

/// Tagging keeps the constraints: tag names stay unique.
pub proof fn lemma_add_tag_keeps_wf(
    db: StoreView,
    node_id: Seq<char>,
    name: Seq<char>,
    new_id: Seq<char>,
)
    requires
        wf(db),
    ensures
        wf(spec_add_tag(db, node_id, name, new_id).0),
{
    let out = spec_add_tag(db, node_id, name, new_id);
    if out.1 is Ok {
        let tag_id = out.1->Ok_0.id;
        let mid = if lookup_tag(db.tags, name) is Some {
            db
        } else {
            crate::db::StoreView {
                tags: db.tags.push(TagView { id: new_id, name, color: default_color() }),
                ..db
            }
        };
        assert(out.0 == link_tag(mid, node_id, tag_id));
        if lookup_tag(db.tags, name) is None {
            let t = TagView { id: new_id, name, color: default_color() };
            assert forall|i: int| 0 <= i < db.tags.len() implies distinct_tags()(
                #[trigger] db.tags[i],
                t,
            ) by {
                assert(db.tags[i].id != new_id);
                assert(!has_tag_name(db.tags, name));
            }
            lemma_push_pairwise(db.tags, t, distinct_tags());
            assert(has_tag_id(mid.tags, tag_id)) by {
                assert(mid.tags[db.tags.len() as int].id == new_id);
            }
            assert forall|y: Seq<char>| has_tag_id(db.tags, y) implies has_tag_id(
                mid.tags,
                y,
            ) by {
                let i = choose|i: int| 0 <= i < db.tags.len() && #[trigger] db.tags[i].id == y;
                assert(mid.tags[i].id == y);
            }
        } else {
            let k = choose|k: int| 0 <= k < db.tags.len() && #[trigger] db.tags[k].name == name;
            let i = choose|i: int| is_first_tag(db.tags, name, i);
            assert(is_first_tag(db.tags, name, i)) by {
                let f = crate::tables::lemma_has_first_tag(db.tags, name, k);
            }
            assert(has_tag_id(mid.tags, tag_id)) by {
                assert(mid.tags[i].id == tag_id);
            }
        }
        assert(wf(mid));
        if !mid.node_tags.contains((node_id, tag_id)) {
            let l = (node_id, tag_id);
            assert forall|i: int| 0 <= i < mid.node_tags.len() implies distinct_links()(
                #[trigger] mid.node_tags[i],
                l,
            ) by {
            }
            lemma_push_pairwise(mid.node_tags, l, distinct_links());
            let ls = mid.node_tags.push(l);
            assert forall|k: int| 0 <= k < ls.len() implies has_node(
                mid.nodes,
                (#[trigger] ls[k]).0,
            ) && has_tag_id(mid.tags, ls[k].1) by {
                if k < mid.node_tags.len() {
                    assert(ls[k] == mid.node_tags[k]);
                }
            }
        }
    }
}

/// Removing a tag keeps the constraints.
pub proof fn lemma_remove_tag_keeps_wf(db: StoreView, node_id: Seq<char>, name: Seq<char>)
    requires
        wf(db),
    ensures
        wf(spec_remove_tag(db, node_id, name).0),
{
    let out = spec_remove_tag(db, node_id, name).0;
    if spec_remove_tag(db, node_id, name).1 is Ok {
        let t = lookup_tag(db.tags, name)->Some_0;
        let pred = crate::tables::not_this_link(node_id, t.id);
        lemma_filter_pairwise(db.node_tags, pred, distinct_links());
        assert forall|k: int| 0 <= k < out.node_tags.len() implies has_node(
            out.nodes,
            (#[trigger] out.node_tags[k]).0,
        ) && has_tag_id(out.tags, out.node_tags[k].1) by {
            assert(out.node_tags.contains(out.node_tags[k]));
            db.node_tags.lemma_filter_contains_rev(pred, out.node_tags[k]);
            let j = choose|j: int| 0 <= j < db.node_tags.len() && db.node_tags[j] == out.node_tags[k];
            assert(has_node(db.nodes, db.node_tags[j].0));
        }
    }
}

// ---------------------------------------------------------------------------
// Edges read back
// ---------------------------------------------------------------------------

/// A deleted edge is gone.
pub proof fn lemma_delete_edge_removes(
    db: StoreView,
    source: Seq<char>,
    edge_type: EdgeType,
    target: Seq<char>,
)
    requires
        spec_delete_edge(db, source, edge_type, target).1 is Ok,
    ensures
        !has_edge(spec_delete_edge(db, source, edge_type, target).0.edges, edge_type, source, target),
{
    let out = spec_delete_edge(db, source, edge_type, target).0;
    let pred = crate::tables::not_this_edge(source, target, edge_type);
    if has_edge(out.edges, edge_type, source, target) {
        let k = choose|k: int|
            0 <= k < out.edges.len() && #[trigger] out.edges[k].edge_type == edge_type
                && out.edges[k].source_id == source && out.edges[k].target_id == target;
        assert(pred(db.edges.filter(pred)[k]));
    }
}

/// A `Related` edge is seen from both of its ends: it is among the related
/// edges of the detail of its source and of its target.
pub proof fn lemma_related_seen_from_both_ends(db: StoreView, k: int)
    requires
        0 <= k < db.edges.len(),
        db.edges[k].edge_type == EdgeType::Related,
        has_node(db.nodes, db.edges[k].source_id),
        has_node(db.nodes, db.edges[k].target_id),
    ensures
        crate::tables::spec_node_detail(db, db.edges[k].source_id) matches Ok(d)
            && d.related.contains(db.edges[k]),
        crate::tables::spec_node_detail(db, db.edges[k].target_id) matches Ok(d)
            && d.related.contains(db.edges[k]),
{
    let e = db.edges[k];
    let sel = crate::tables::edge_select(EdgeType::Related, None, None);
    let j = choose|j: int| 0 <= j < db.nodes.len() && #[trigger] db.nodes[j].id == e.source_id;
    lemma_has_first_node(db.nodes, e.source_id, j);
    let j2 = choose|j: int| 0 <= j < db.nodes.len() && #[trigger] db.nodes[j].id == e.target_id;
    lemma_has_first_node(db.nodes, e.target_id, j2);
    let ts = db.edges.filter(crate::tables::touches(e.source_id));
    assert(ts.contains(db.edges[k]));
    let i = choose|i: int| 0 <= i < ts.len() && ts[i] == e;
    assert(ts.filter(sel).contains(ts[i]));
    let tt = db.edges.filter(crate::tables::touches(e.target_id));
    assert(tt.contains(db.edges[k]));
    let i2 = choose|i: int| 0 <= i < tt.len() && tt[i] == e;
    assert(tt.filter(sel).contains(tt[i2]));
}

/// A created edge reads back among the edges of its source.
pub proof fn lemma_create_edge_then_get_edges(
    db: StoreView,
    source: Seq<char>,
    target: Seq<char>,
    edge_type: EdgeType,
    id: Seq<char>,
    now: Seq<char>,
)
    requires
        spec_create_edge(db, source, target, edge_type, id, now).1 is Ok,
    ensures
        spec_create_edge(db, source, target, edge_type, id, now).1 matches Ok(e) && spec_create_edge(
            db,
            source,
            target,
            edge_type,
            id,
            now,
        ).0.edges.filter(crate::tables::touches(source)).contains(e) && has_edge(
            spec_create_edge(db, source, target, edge_type, id, now).0.edges,
            edge_type,
            source,
            target,
        ),
{
    let out = spec_create_edge(db, source, target, edge_type, id, now);
    let e = out.1->Ok_0;
    let n = db.edges.len() as int;
    assert(out.0.edges[n] == e);
    assert(crate::tables::touches(source)(out.0.edges[n]));
    assert(out.0.edges[n].edge_type == edge_type);
}

/// `get_children` returns exactly the nodes below `parent` through a parent
/// edge, in order of `sort_order`, then `created_at`.
pub proof fn lemma_children_exact(db: StoreView, parent: Seq<char>)
    ensures
        is_ranked::<Node>(spec_get_children(db, parent)),
        forall|n: NodeView|
            spec_get_children(db, parent).contains(n) <==> (db.nodes.contains(n) && has_edge(
                db.edges,
                EdgeType::Parent,
                parent,
                n.id,
            )),
{
    broadcast use vstd::seq_lib::group_to_multiset_ensures;

    let pred = child_filter(db, parent);
    let f = db.nodes.filter(pred);
    lemma_ranked_permutes::<Node>(f);
    lemma_ranked_is_ranked::<Node>(f);
    let r = ranked::<Node>(f);
    assert forall|n: NodeView| r.contains(n) <==> (db.nodes.contains(n) && pred(n)) by {
        assert(r.contains(n) <==> r.to_multiset().count(n) > 0);
        assert(f.contains(n) <==> f.to_multiset().count(n) > 0);
        if f.contains(n) {
            let i = choose|i: int| 0 <= i < f.len() && f[i] == n;
            assert(pred(f[i]));
            db.nodes.lemma_filter_contains_rev(pred, n);
        }
        if db.nodes.contains(n) && pred(n) {
            let i = choose|i: int| 0 <= i < db.nodes.len() && db.nodes[i] == n;
            assert(f.contains(db.nodes[i]));
        }
    }
}

// ---------------------------------------------------------------------------
// Refused requests
// ---------------------------------------------------------------------------

/// A refused request leaves the store as it was; the one exception is an
/// update whose status-log entry clashes, where the node's row has already
/// been written.
pub proof fn lemma_refusals_change_nothing(
    db: StoreView,
    node_type: NodeType,
    title: Seq<char>,
    parent: Option<Seq<char>>,
    source: Seq<char>,
    target: Seq<char>,
    edge_type: EdgeType,
    id: Seq<char>,
    edge_id: Seq<char>,
    now: Seq<char>,
    name: Seq<char>,
)
    ensures
        spec_create_node(db, node_type, title, parent, id, edge_id, now).1 is Err
            ==> spec_create_node(db, node_type, title, parent, id, edge_id, now).0 == db,
        spec_create_edge(db, source, target, edge_type, id, now).1 is Err ==> spec_create_edge(
            db,
            source,
            target,
            edge_type,
            id,
            now,
        ).0 == db,
        spec_delete_node(db, id).1 is Err ==> spec_delete_node(db, id).0 == db,
        spec_delete_edge(db, source, edge_type, target).1 is Err ==> spec_delete_edge(
            db,
            source,
            edge_type,
            target,
        ).0 == db,
        spec_add_tag(db, source, name, id).1 is Err ==> spec_add_tag(db, source, name, id).0 == db,
        spec_remove_tag(db, source, name).1 is Err ==> spec_remove_tag(db, source, name).0 == db,
{
}

/// An update refused because the node does not exist changes nothing; the
/// only other refusal, a clash of the status-log entry's id, comes after the
/// node's row has been written.
pub proof fn lemma_update_refusal(
    db: StoreView,
    id: Seq<char>,
    title: Option<Seq<char>>,
    description: Option<Seq<char>>,
    status: Option<NodeStatus>,
    sort_order: Option<i32>,
    now: Seq<char>,
    hist_id: Seq<char>,
)
    ensures
        spec_update_node(db, id, title, description, status, sort_order, now, hist_id).1 matches Err(
            DbErrorView::Custom(_),
        ) ==> spec_update_node(db, id, title, description, status, sort_order, now, hist_id).0
            == db,
        spec_update_node(db, id, title, description, status, sort_order, now, hist_id).1 matches Err(
            DbErrorView::Sqlite(_),
        ) ==> has_node(db.nodes, id) && spec_update_node(
            db,
            id,
            title,
            description,
            status,
            sort_order,
            now,
            hist_id,
        ).0.history == db.history,
{
}

/// Updating, tagging and untagging leave the edges as they are, so they too
/// keep the dependency graph free of cycles.
pub proof fn lemma_other_queries_keep_edges(
    db: StoreView,
    id: Seq<char>,
    title: Option<Seq<char>>,
    description: Option<Seq<char>>,
    status: Option<NodeStatus>,
    sort_order: Option<i32>,
    now: Seq<char>,
    hist_id: Seq<char>,
    name: Seq<char>,
)
    ensures
        spec_update_node(db, id, title, description, status, sort_order, now, hist_id).0.edges
            == db.edges,
        spec_add_tag(db, id, name, hist_id).0.edges == db.edges,
        spec_remove_tag(db, id, name).0.edges == db.edges,
{
}

// ---------------------------------------------------------------------------
// The hierarchy
// ---------------------------------------------------------------------------

/// The hierarchy: every parent link runs from a node to a node of the one
/// type it may hold (a project holds phases, a phase tasks), and every node
/// has at most one parent.
pub open spec fn hierarchy_ok(db: StoreView) -> bool {
    &&& forall|k: int, i: int, j: int|
        #![trigger db.edges[k], db.nodes[i], db.nodes[j]]
        0 <= k < db.edges.len() && 0 <= i < db.nodes.len() && 0 <= j < db.nodes.len()
            && db.edges[k].edge_type == EdgeType::Parent && db.nodes[i].id == db.edges[k].source_id
            && db.nodes[j].id == db.edges[k].target_id ==> spec_child_type(db.nodes[i].node_type)
            == Some(db.nodes[j].node_type)
    &&& forall|k1: int, k2: int|
        #![trigger db.edges[k1], db.edges[k2]]
        0 <= k1 < db.edges.len() && 0 <= k2 < db.edges.len() && db.edges[k1].edge_type
            == EdgeType::Parent && db.edges[k2].edge_type == EdgeType::Parent
            && db.edges[k1].target_id == db.edges[k2].target_id ==> db.edges[k1].source_id
            == db.edges[k2].source_id
}

/// Some node of `ns` has the id and type of `x`.
pub open spec fn node_kept(ns: Seq<NodeView>, x: NodeView) -> bool {
    exists|j: int| 0 <= j < ns.len() && #[trigger] ns[j].id == x.id && ns[j].node_type == x.node_type
}

/// The hierarchy holds of a store whose parent links are links of `db` and
/// whose nodes keep the ids and types of nodes of `db`.
proof fn lemma_hierarchy_sub(db: StoreView, out: StoreView)
    requires
        hierarchy_ok(db),
        forall|k: int|
            0 <= k < out.edges.len() && (#[trigger] out.edges[k]).edge_type == EdgeType::Parent
                ==> db.edges.contains(out.edges[k]),
        forall|i: int| 0 <= i < out.nodes.len() ==> node_kept(db.nodes, #[trigger] out.nodes[i]),
    ensures
        hierarchy_ok(out),
{
    assert forall|k: int, i: int, j: int|
        #![trigger out.edges[k], out.nodes[i], out.nodes[j]]
        0 <= k < out.edges.len() && 0 <= i < out.nodes.len() && 0 <= j < out.nodes.len()
            && out.edges[k].edge_type == EdgeType::Parent && out.nodes[i].id
            == out.edges[k].source_id && out.nodes[j].id == out.edges[k].target_id implies spec_child_type(
        out.nodes[i].node_type,
    ) == Some(out.nodes[j].node_type) by {
        assert(db.edges.contains(out.edges[k]));
        let kk = choose|kk: int| 0 <= kk < db.edges.len() && db.edges[kk] == out.edges[k];
        assert(node_kept(db.nodes, out.nodes[i]));
        assert(node_kept(db.nodes, out.nodes[j]));
        let ii = choose|ii: int|
            0 <= ii < db.nodes.len() && #[trigger] db.nodes[ii].id == out.nodes[i].id
                && db.nodes[ii].node_type == out.nodes[i].node_type;
        let jj = choose|jj: int|
            0 <= jj < db.nodes.len() && #[trigger] db.nodes[jj].id == out.nodes[j].id
                && db.nodes[jj].node_type == out.nodes[j].node_type;
        assert(spec_child_type(db.nodes[ii].node_type) == Some(db.nodes[jj].node_type)) by {
            assert(db.edges[kk].edge_type == EdgeType::Parent);
            assert(db.nodes[ii].id == db.edges[kk].source_id);
        }
    }
    assert forall|k1: int, k2: int|
        #![trigger out.edges[k1], out.edges[k2]]
        0 <= k1 < out.edges.len() && 0 <= k2 < out.edges.len() && out.edges[k1].edge_type
            == EdgeType::Parent && out.edges[k2].edge_type == EdgeType::Parent
            && out.edges[k1].target_id == out.edges[k2].target_id implies out.edges[k1].source_id
        == out.edges[k2].source_id by {
        assert(db.edges.contains(out.edges[k1]));
        assert(db.edges.contains(out.edges[k2]));
        let a = choose|a: int| 0 <= a < db.edges.len() && db.edges[a] == out.edges[k1];
        let b = choose|b: int| 0 <= b < db.edges.len() && db.edges[b] == out.edges[k2];
        assert(db.edges[a].edge_type == EdgeType::Parent);
        assert(db.edges[b].edge_type == EdgeType::Parent);
    }
}

/// Every row of `out` is a row of `db`.
proof fn lemma_nodes_kept(db: Seq<NodeView>, out: Seq<NodeView>)
    requires
        forall|i: int| 0 <= i < out.len() ==> db.contains(#[trigger] out[i]),
    ensures
        forall|i: int| 0 <= i < out.len() ==> node_kept(db, #[trigger] out[i]),
{
    assert forall|i: int| 0 <= i < out.len() implies node_kept(db, #[trigger] out[i]) by {
        assert(db.contains(out[i]));
        let j = choose|j: int| 0 <= j < db.len() && db[j] == out[i];
        assert(db[j].id == out[i].id);
    }
}

/// A store whose nodes and parent links are those of `db` keeps the
/// hierarchy.
proof fn lemma_same_parents_keep_hierarchy(db: StoreView, out: StoreView)
    requires
        hierarchy_ok(db),
        out.nodes == db.nodes,
        out.edges.len() >= db.edges.len(),
        forall|k: int| 0 <= k < db.edges.len() ==> out.edges[k] == db.edges[k],
        forall|k: int| db.edges.len() <= k < out.edges.len() ==> (#[trigger] out.edges[k]).edge_type != EdgeType::Parent,
    ensures
        hierarchy_ok(out),
{
    assert forall|i: int| 0 <= i < out.nodes.len() implies node_kept(db.nodes, #[trigger] out.nodes[i]) by {
        assert(db.nodes[i].id == out.nodes[i].id);
    }
    assert forall|k: int|
        0 <= k < out.edges.len() && (#[trigger] out.edges[k]).edge_type == EdgeType::Parent
            implies db.edges.contains(out.edges[k]) by {
        assert(out.edges[k] == db.edges[k]);
    }
    lemma_hierarchy_sub(db, out);
}

/// Creating a node keeps the hierarchy: its parent link, if any, runs from a
/// node of the type that may hold it, and the new node had no parent before.
pub proof fn lemma_create_node_keeps_hierarchy(
    db: StoreView,
    node_type: NodeType,
    title: Seq<char>,
    parent: Option<Seq<char>>,
    id: Seq<char>,
    edge_id: Seq<char>,
    now: Seq<char>,
)
    requires
        wf(db),
        hierarchy_ok(db),
    ensures
        hierarchy_ok(spec_create_node(db, node_type, title, parent, id, edge_id, now).0),
{
    let out = spec_create_node(db, node_type, title, parent, id, edge_id, now).0;
    if spec_create_node(db, node_type, title, parent, id, edge_id, now).1 is Err {
        return;
    }
    let n = new_node_view(id, node_type, title, now);
    let nn = db.nodes.len() as int;
    assert(out.nodes == db.nodes.push(n));
    assert(!has_node(db.nodes, id));
    // No stored edge touches the new id.
    assert forall|k: int| 0 <= k < db.edges.len() implies (#[trigger] db.edges[k]).target_id != id
        && db.edges[k].source_id != id by {
        assert(has_node(db.nodes, db.edges[k].source_id));
        assert(has_node(db.nodes, db.edges[k].target_id));
    }
    if parent is None {
        assert(out.edges == db.edges);
        assert forall|k: int, i: int, j: int|
            #![trigger out.edges[k], out.nodes[i], out.nodes[j]]
            0 <= k < out.edges.len() && 0 <= i < out.nodes.len() && 0 <= j < out.nodes.len()
                && out.edges[k].edge_type == EdgeType::Parent && out.nodes[i].id
                == out.edges[k].source_id && out.nodes[j].id == out.edges[k].target_id implies spec_child_type(
            out.nodes[i].node_type,
        ) == Some(out.nodes[j].node_type) by {
            assert(i != nn && j != nn);
            assert(out.nodes[i] == db.nodes[i] && out.nodes[j] == db.nodes[j]);
            assert(db.edges[k] == out.edges[k]);
        }
    } else {
        let pid = parent->0;
        let e = EdgeView {
            id: edge_id,
            source_id: pid,
            target_id: id,
            edge_type: EdgeType::Parent,
            created_at: now,
        };
        let ne = db.edges.len() as int;
        assert(out.edges == db.edges.push(e));
        let p = lookup_node(db.nodes, pid)->Some_0;
        assert(spec_child_type(p.node_type) == Some(node_type));
        let pk = choose|pk: int| 0 <= pk < db.nodes.len() && #[trigger] db.nodes[pk].id == pid;
        let pf = lemma_has_first_node(db.nodes, pid, pk);
        assert forall|k: int, i: int, j: int|
            #![trigger out.edges[k], out.nodes[i], out.nodes[j]]
            0 <= k < out.edges.len() && 0 <= i < out.nodes.len() && 0 <= j < out.nodes.len()
                && out.edges[k].edge_type == EdgeType::Parent && out.nodes[i].id
                == out.edges[k].source_id && out.nodes[j].id == out.edges[k].target_id implies spec_child_type(
            out.nodes[i].node_type,
        ) == Some(out.nodes[j].node_type) by {
            if k < ne {
                assert(out.edges[k] == db.edges[k]);
                assert(i != nn && j != nn);
                assert(out.nodes[i] == db.nodes[i] && out.nodes[j] == db.nodes[j]);
            } else {
                assert(out.edges[k] == e);
                assert(out.nodes[nn].id == id);
                assert(i != nn) by {
                    assert(has_node(db.nodes, pid));
                }
                assert(out.nodes[i] == db.nodes[i]);
                if i != pf {
                    assert(distinct_nodes()(db.nodes[i], db.nodes[pf])
                        || distinct_nodes()(db.nodes[pf], db.nodes[i]));
                }
                if j != nn {
                    assert(out.nodes[j] == db.nodes[j]);
                    assert(db.nodes[j].id == id);
                }
            }
        }
        assert forall|k1: int, k2: int|
            #![trigger out.edges[k1], out.edges[k2]]
            0 <= k1 < out.edges.len() && 0 <= k2 < out.edges.len() && out.edges[k1].edge_type
                == EdgeType::Parent && out.edges[k2].edge_type == EdgeType::Parent
                && out.edges[k1].target_id == out.edges[k2].target_id implies out.edges[k1].source_id
            == out.edges[k2].source_id by {
            if k1 < ne {
                assert(out.edges[k1] == db.edges[k1]);
            }
            if k2 < ne {
                assert(out.edges[k2] == db.edges[k2]);
            }
        }
    }
}

/// Updating a node keeps the hierarchy: ids, types and links stay.
pub proof fn lemma_update_node_keeps_hierarchy(
    db: StoreView,
    id: Seq<char>,
    title: Option<Seq<char>>,
    description: Option<Seq<char>>,
    status: Option<NodeStatus>,
    sort_order: Option<i32>,
    now: Seq<char>,
    hist_id: Seq<char>,
)
    requires
        hierarchy_ok(db),
    ensures
        hierarchy_ok(
            spec_update_node(db, id, title, description, status, sort_order, now, hist_id).0,
        ),
{
    let out = spec_update_node(db, id, title, description, status, sort_order, now, hist_id).0;
    assert(out.edges == db.edges);
    assert forall|i: int| 0 <= i < out.nodes.len() implies node_kept(db.nodes, #[trigger] out.nodes[i]) by {
        assert(db.nodes[i].id == out.nodes[i].id);
    }
    assert forall|k: int|
        0 <= k < out.edges.len() && (#[trigger] out.edges[k]).edge_type == EdgeType::Parent
            implies db.edges.contains(out.edges[k]) by {
        assert(db.edges[k] == out.edges[k]);
    }
    lemma_hierarchy_sub(db, out);
}

/// Deleting a node keeps the hierarchy.
pub proof fn lemma_delete_node_keeps_hierarchy(db: StoreView, id: Seq<char>)
    requires
        hierarchy_ok(db),
    ensures
        hierarchy_ok(spec_delete_node(db, id).0),
{
    let out = spec_delete_node(db, id).0;
    if spec_delete_node(db, id).1 is Ok {
        let gone = subtree(db, id);
        let kn = crate::tables::keep_node(gone);
        let ke = crate::tables::keep_edge(gone);
        assert forall|i: int| 0 <= i < out.nodes.len() implies db.nodes.contains(
            #[trigger] out.nodes[i],
        ) by {
            assert(out.nodes.contains(out.nodes[i]));
            db.nodes.lemma_filter_contains_rev(kn, out.nodes[i]);
        }
        lemma_nodes_kept(db.nodes, out.nodes);
        assert forall|k: int|
            0 <= k < out.edges.len() && (#[trigger] out.edges[k]).edge_type == EdgeType::Parent
                implies db.edges.contains(out.edges[k]) by {
            assert(out.edges.contains(out.edges[k]));
            db.edges.lemma_filter_contains_rev(ke, out.edges[k]);
        }
        lemma_hierarchy_sub(db, out);
    }
}

/// Deleting an edge keeps the hierarchy.
pub proof fn lemma_delete_edge_keeps_hierarchy(
    db: StoreView,
    source: Seq<char>,
    edge_type: EdgeType,
    target: Seq<char>,
)
    requires
        hierarchy_ok(db),
    ensures
        hierarchy_ok(spec_delete_edge(db, source, edge_type, target).0),
{
    let out = spec_delete_edge(db, source, edge_type, target).0;
    if spec_delete_edge(db, source, edge_type, target).1 is Ok {
        let pred = crate::tables::not_this_edge(source, target, edge_type);
        assert(out.nodes == db.nodes);
        assert forall|i: int| 0 <= i < out.nodes.len() implies node_kept(
            db.nodes,
            #[trigger] out.nodes[i],
        ) by {
            assert(db.nodes[i].id == out.nodes[i].id);
        }
        assert forall|k: int|
            0 <= k < out.edges.len() && (#[trigger] out.edges[k]).edge_type == EdgeType::Parent
                implies db.edges.contains(out.edges[k]) by {
            assert(out.edges.contains(out.edges[k]));
            db.edges.lemma_filter_contains_rev(pred, out.edges[k]);
        }
        lemma_hierarchy_sub(db, out);
    }
}

/// A `Blocks` or `Related` link keeps the hierarchy, and so do tagging and
/// untagging. (A `Parent` link made by `create_edge` is checked against
/// nothing, as the hierarchy rule binds `create_node` alone.)
pub proof fn lemma_other_links_keep_hierarchy(
    db: StoreView,
    source: Seq<char>,
    target: Seq<char>,
    edge_type: EdgeType,
    id: Seq<char>,
    now: Seq<char>,
    name: Seq<char>,
)
    requires
        hierarchy_ok(db),
    ensures
        edge_type != EdgeType::Parent ==> hierarchy_ok(
            spec_create_edge(db, source, target, edge_type, id, now).0,
        ),
        hierarchy_ok(spec_add_tag(db, source, name, id).0),
        hierarchy_ok(spec_remove_tag(db, source, name).0),
{
    let c = spec_create_edge(db, source, target, edge_type, id, now).0;
    if edge_type != EdgeType::Parent {
        lemma_same_parents_keep_hierarchy(db, c);
    }
    lemma_same_parents_keep_hierarchy(db, spec_add_tag(db, source, name, id).0);
    lemma_same_parents_keep_hierarchy(db, spec_remove_tag(db, source, name).0);
}

// ---------------------------------------------------------------------------
// What the answers mean, stated over the rows themselves
// ---------------------------------------------------------------------------

/// The number of rows of `s` whose status is exactly `Completed`.
pub open spec fn completed_count(s: Seq<NodeView>) -> nat
    decreases s.len(),
{
    if s.len() == 0 {
        0
    } else {
        completed_count(s.drop_last()) + if s.last().status == NodeStatus::Completed {
            1nat
        } else {
            0nat
        }
    }
}

proof fn lemma_progress_count(s: Seq<NodeView>)
    ensures
        spec_progress(s) == if s.len() == 0 {
            None::<(nat, nat)>
        } else {
            Some((completed_count(s), s.len()))
        },
    decreases s.len(),
{
    reveal(Seq::filter);
    if s.len() > 0 {
        lemma_progress_count(s.drop_last());
        let p = crate::tables::is_completed();
        assert(s.drop_last().filter(p).len() == completed_count(s.drop_last())) by {
            if s.drop_last().len() == 0 {
                assert(s.drop_last().filter(p) =~= Seq::<NodeView>::empty());
            }
        }
    }
}

/// The progress of a node's detail is absent when it has no children, and
/// otherwise counts, out of all its children, exactly those whose status is
/// `Completed`: an active or archived child adds to the total only.
pub proof fn lemma_progress_counts_completed_children(db: StoreView, id: Seq<char>)
    ensures
        spec_node_detail(db, id) matches Ok(d) ==> d.progress == if d.children.len() == 0 {
            None::<(nat, nat)>
        } else {
            Some((completed_count(d.children), d.children.len()))
        },
{
    if spec_node_detail(db, id) is Ok {
        lemma_progress_count(spec_node_detail(db, id)->Ok_0.children);
    }
}

/// A row of the link table joins node `nid` to a tag named `name`.
pub open spec fn linked_to_tag_named(db: StoreView, nid: Seq<char>, name: Seq<char>) -> bool {
    exists|i: int, j: int|
        0 <= i < db.tags.len() && 0 <= j < db.node_tags.len() && (#[trigger] db.tags[i]).name
            == name && (#[trigger] db.node_tags[j]).0 == nid && db.node_tags[j].1 == db.tags[i].id
}

/// With a tag filter, `list_nodes` lists a node only when some link row joins
/// it to a tag of that name (a node linked only to other tags is never
/// listed); and it lists every stored node of the type, the parent and the
/// status asked for that has such a link.
pub proof fn lemma_tag_filter_needs_link(
    db: StoreView,
    node_type: NodeType,
    parent: Option<Seq<char>>,
    status: Option<NodeStatus>,
    name: Seq<char>,
    n: NodeView,
)
    ensures
        spec_list_nodes(db, node_type, parent, status, Some(name)).contains(n)
            ==> linked_to_tag_named(db, n.id, name),
        db.nodes.contains(n) && n.node_type == node_type && (parent matches Some(p)
            ==> has_edge(db.edges, EdgeType::Parent, p, n.id)) && (status matches Some(st)
            ==> n.status == st) && linked_to_tag_named(db, n.id, name) ==> spec_list_nodes(
            db,
            node_type,
            parent,
            status,
            Some(name),
        ).contains(n),
{
    lemma_list_nodes_exact(db, node_type, parent, status, Some(name));
    if spec_list_nodes(db, node_type, parent, status, Some(name)).contains(n) {
        broadcast use vstd::seq_lib::group_to_multiset_ensures;
        let pred = list_filter(db, node_type, parent, status, Some(name));
        let f = db.nodes.filter(pred);
        lemma_ranked_permutes::<Node>(f);
        let r = ranked::<Node>(f);
        assert(r.to_multiset().count(n) > 0);
        assert(f.contains(n));
        let m = choose|m: int| 0 <= m < f.len() && f[m] == n;
        assert(pred(f[m]));
        assert(list_filter(db, node_type, parent, status, Some(name))(n));
        let (i, j) = choose|i: int, j: int|
            0 <= i < db.tags.len() && 0 <= j < db.node_tags.len() && #[trigger] db.tags[i].name
                == name && #[trigger] db.node_tags[j] == (n.id, db.tags[i].id);
        assert(db.tags[i].name == name && db.node_tags[j].0 == n.id);
    }
    if linked_to_tag_named(db, n.id, name) {
        let (i, j) = choose|i: int, j: int|
            0 <= i < db.tags.len() && 0 <= j < db.node_tags.len() && (#[trigger] db.tags[i]).name
                == name && (#[trigger] db.node_tags[j]).0 == n.id && db.node_tags[j].1
                == db.tags[i].id;
        assert(db.node_tags[j] == (n.id, db.tags[i].id));
        assert(db.tags[i].name == name);
    }
}

/// Deleting the edge of `edge_type` from `source` to `target` keeps every
/// other edge: afterwards an edge is stored exactly when it was stored before
/// and is not that one. The other tables stay as they were.
pub proof fn lemma_delete_edge_spares_other_edges(
    db: StoreView,
    source: Seq<char>,
    edge_type: EdgeType,
    target: Seq<char>,
    e: EdgeView,
)
    ensures
        spec_delete_edge(db, source, edge_type, target).0.edges.contains(e) <==> (
        db.edges.contains(e) && !(e.source_id == source && e.target_id == target && e.edge_type
            == edge_type)),
        spec_delete_edge(db, source, edge_type, target).0.nodes == db.nodes,
        spec_delete_edge(db, source, edge_type, target).0.tags == db.tags,
        spec_delete_edge(db, source, edge_type, target).0.node_tags == db.node_tags,
        spec_delete_edge(db, source, edge_type, target).0.history == db.history,
        spec_delete_edge(db, source, edge_type, target).1 is Ok <==> exists|k: int|
            0 <= k < db.edges.len() && (#[trigger] db.edges[k]).source_id == source
                && db.edges[k].target_id == target && db.edges[k].edge_type == edge_type,
{
    if exists|k: int|
        0 <= k < db.edges.len() && (#[trigger] db.edges[k]).source_id == source
            && db.edges[k].target_id == target && db.edges[k].edge_type == edge_type {
        let k = choose|k: int|
            0 <= k < db.edges.len() && (#[trigger] db.edges[k]).source_id == source
                && db.edges[k].target_id == target && db.edges[k].edge_type == edge_type;
        assert(db.edges[k].edge_type == edge_type);
    }
    let pred = crate::tables::not_this_edge(source, target, edge_type);
    let out = spec_delete_edge(db, source, edge_type, target).0;
    if has_edge(db.edges, edge_type, source, target) {
        if out.edges.contains(e) {
            db.edges.lemma_filter_contains_rev(pred, e);
            let i = choose|i: int| 0 <= i < out.edges.len() && out.edges[i] == e;
            assert(pred(db.edges.filter(pred)[i]));
        }
        if db.edges.contains(e) && pred(e) {
            let i = choose|i: int| 0 <= i < db.edges.len() && db.edges[i] == e;
            assert(out.edges.contains(db.edges[i]));
        }
    } else {
        if db.edges.contains(e) && e.source_id == source && e.target_id == target && e.edge_type
            == edge_type {
            let i = choose|i: int| 0 <= i < db.edges.len() && db.edges[i] == e;
            assert(db.edges[i].edge_type == edge_type);
        }
    }
}

/// Removing tag `name` from node `node_id` keeps every other link: afterwards
/// a link is stored exactly when it was stored before and does not join
/// `node_id` to the tag named `name`. Links of every other node stay.
pub proof fn lemma_remove_tag_spares_other_links(
    db: StoreView,
    node_id: Seq<char>,
    name: Seq<char>,
    l: (Seq<char>, Seq<char>),
)
    requires
        wf(db),
    ensures
        spec_remove_tag(db, node_id, name).0.node_tags.contains(l) <==> (db.node_tags.contains(l)
            && !(l.0 == node_id && exists|k: int|
            0 <= k < db.tags.len() && (#[trigger] db.tags[k]).id == l.1 && db.tags[k].name
                == name)),
        l.0 != node_id ==> (spec_remove_tag(db, node_id, name).0.node_tags.contains(l)
            <==> db.node_tags.contains(l)),
        spec_remove_tag(db, node_id, name).0.tags == db.tags,
        spec_remove_tag(db, node_id, name).0.nodes == db.nodes,
        spec_remove_tag(db, node_id, name).0.edges == db.edges,
        spec_remove_tag(db, node_id, name).1 is Ok <==> exists|k: int|
            0 <= k < db.tags.len() && (#[trigger] db.tags[k]).name == name
                && db.node_tags.contains((node_id, db.tags[k].id)),
{
    if exists|k: int|
        0 <= k < db.tags.len() && (#[trigger] db.tags[k]).name == name
            && db.node_tags.contains((node_id, db.tags[k].id)) {
        let k = choose|k: int|
            0 <= k < db.tags.len() && (#[trigger] db.tags[k]).name == name
                && db.node_tags.contains((node_id, db.tags[k].id));
        let l2 = (node_id, db.tags[k].id);
        assert(db.tags[k].id == l2.1);
        lemma_remove_tag_link_named(db, node_id, name, k);
    }
    if spec_remove_tag(db, node_id, name).1 is Ok {
        let t = lookup_tag(db.tags, name)->Some_0;
        assert(has_tag_name(db.tags, name));
        let k0 = choose|k0: int| 0 <= k0 < db.tags.len() && #[trigger] db.tags[k0].name == name;
        let i = crate::tables::lemma_has_first_tag(db.tags, name, k0);
        assert(db.tags[i].name == name && db.node_tags.contains((node_id, db.tags[i].id)));
    }
    let out = spec_remove_tag(db, node_id, name).0;
    let named = exists|k: int|
        0 <= k < db.tags.len() && (#[trigger] db.tags[k]).id == l.1 && db.tags[k].name == name;
    if named {
        let k = choose|k: int|
            0 <= k < db.tags.len() && (#[trigger] db.tags[k]).id == l.1 && db.tags[k].name == name;
        let i0 = crate::tables::lemma_has_first_tag(db.tags, name, k);
        if i0 != k {
            if i0 < k {
                assert(distinct_tags()(db.tags[i0], db.tags[k]));
            } else {
                assert(distinct_tags()(db.tags[k], db.tags[i0]));
            }
        }
        assert(lookup_tag(db.tags, name) == Some(db.tags[k]));
    }
    match lookup_tag(db.tags, name) {
        Some(t) => {
            assert(has_tag_name(db.tags, name));
            let k0 = choose|k0: int| 0 <= k0 < db.tags.len() && #[trigger] db.tags[k0].name == name;
            let i = crate::tables::lemma_has_first_tag(db.tags, name, k0);
            assert(db.tags[i] == t);
            assert(t.name == name);
            if db.node_tags.contains((node_id, t.id)) {
                let pred = crate::tables::not_this_link(node_id, t.id);
                if l.0 == node_id && l.1 == t.id {
                    assert(db.tags[i].id == l.1);
                }
                if out.node_tags.contains(l) {
                    db.node_tags.lemma_filter_contains_rev(pred, l);
                    let m = choose|m: int| 0 <= m < out.node_tags.len() && out.node_tags[m] == l;
                    assert(pred(db.node_tags.filter(pred)[m]));
                }
                if db.node_tags.contains(l) && pred(l) {
                    let m = choose|m: int| 0 <= m < db.node_tags.len() && db.node_tags[m] == l;
                    assert(out.node_tags.contains(db.node_tags[m]));
                }
            }
        },
        None => {
            if named {
                let k = choose|k: int|
                    0 <= k < db.tags.len() && (#[trigger] db.tags[k]).id == l.1 && db.tags[k].name
                        == name;
                assert(has_tag_name(db.tags, name)) by {
                    assert(db.tags[k].name == name);
                }
            }
        },
    }
}

/// Under the constraints, the tag named `name` is the one at index `k`.
proof fn lemma_remove_tag_link_named(db: StoreView, node_id: Seq<char>, name: Seq<char>, k: int)
    requires
        wf(db),
        0 <= k < db.tags.len(),
        db.tags[k].name == name,
    ensures
        lookup_tag(db.tags, name) == Some(db.tags[k]),
{
    let i0 = crate::tables::lemma_has_first_tag(db.tags, name, k);
    if i0 < k {
        assert(distinct_tags()(db.tags[i0], db.tags[k]));
    } else if i0 > k {
        assert(distinct_tags()(db.tags[k], db.tags[i0]));
    }
}

/// Two characters are the same letter up to ASCII case: the same code point,
/// or an ASCII capital and its small letter.
pub open spec fn same_letter_any_case(a: char, b: char) -> bool {
    ||| (a as u32) == (b as u32)
    ||| 65 <= (a as u32) <= 90 && (b as u32) == (a as u32) + 32
    ||| 65 <= (b as u32) <= 90 && (a as u32) == (b as u32) + 32
}

/// Two texts are the same up to ASCII case: as long as each other, and the
/// same letter at every position.
pub open spec fn same_text_any_case(a: Seq<char>, b: Seq<char>) -> bool {
    &&& a.len() == b.len()
    &&& forall|i: int| 0 <= i < a.len() ==> #[trigger] same_letter_any_case(a[i], b[i])
}

proof fn lemma_title_match_is_same_text(n: NodeView, x: Seq<char>)
    ensures
        title_matches(x)(n) <==> same_text_any_case(n.title, x),
{
    let a = n.title;
    if a.len() == x.len() {
        assert forall|i: int| 0 <= i < a.len() implies (#[trigger] ascii_lower(a[i]) == ascii_lower(
            x[i],
        ) <==> same_letter_any_case(a[i], x[i])) by {
        }
        if same_text_any_case(a, x) {
            assert forall|i: int| 0 <= i < a.len() implies #[trigger] ascii_lower(a[i])
                == ascii_lower(x[i]) by {
                assert(same_letter_any_case(a[i], x[i]));
            }
        }
        if title_matches(x)(n) {
            assert forall|i: int| 0 <= i < a.len() implies #[trigger] same_letter_any_case(
                a[i],
                x[i],
            ) by {
                assert(ascii_lower(a[i]) == ascii_lower(x[i]));
            }
        }
    }
}

proof fn lemma_filter_single<A>(s: Seq<A>, p: spec_fn(A) -> bool, k: int)
    requires
        0 <= k < s.len(),
        p(s[k]),
        forall|j: int| 0 <= j < s.len() && #[trigger] p(s[j]) ==> j == k,
    ensures
        s.filter(p) == seq![s[k]],
    decreases s.len(),
{
    reveal(Seq::filter);
    let d = s.drop_last();
    if k == s.len() - 1 {
        assert forall|j: int| 0 <= j < d.len() implies !p(#[trigger] d[j]) by {
            assert(d[j] == s[j]);
        }
        assert(d.all(|x: A| !p(x)));
        d.lemma_all_neg_filter_empty(p);
        assert(d.filter(p) =~= Seq::<A>::empty());
        assert(s.filter(p) =~= seq![s[k]]);
    } else {
        assert forall|j: int| 0 <= j < d.len() && #[trigger] p(d[j]) implies j == k by {
            assert(d[j] == s[j]);
        }
        assert(!p(s.last()));
        lemma_filter_single(d, p, k);
    }
}

/// When no node has id `x` and a title resolves it, that title is the same
/// text as `x` up to ASCII case (as long, letter by letter; a longer or
/// shorter title never matches).
pub proof fn lemma_resolved_title_is_same_text(db: StoreView, x: Seq<char>)
    ensures
        (spec_resolve_node(db, x) is Ok && !(exists|k: int|
            0 <= k < db.nodes.len() && (#[trigger] db.nodes[k]).id == x)) ==> exists|k: int|
            0 <= k < db.nodes.len() && (#[trigger] db.nodes[k]).id == spec_resolve_node(
                db,
                x,
            )->Ok_0 && same_text_any_case(db.nodes[k].title, x),
{
    if spec_resolve_node(db, x) is Ok && !(exists|k: int|
        0 <= k < db.nodes.len() && (#[trigger] db.nodes[k]).id == x) {
        assert(!has_node(db.nodes, x));
        let ms = db.nodes.filter(title_matches(x));
        assert(ms.contains(ms[0]));
        db.nodes.lemma_filter_contains_rev(title_matches(x), ms[0]);
        let i = choose|i: int| 0 <= i < db.nodes.len() && db.nodes[i] == ms[0];
        assert(title_matches(x)(ms[0]));
        lemma_title_match_is_same_text(db.nodes[i], x);
        assert(db.nodes[i].id == spec_resolve_node(db, x)->Ok_0);
    }
}

/// A reference that is some node's id resolves to itself.
pub proof fn lemma_id_resolves_to_itself(db: StoreView, x: Seq<char>, k: int)
    requires
        0 <= k < db.nodes.len(),
        db.nodes[k].id == x,
    ensures
        spec_resolve_node(db, x) == Ok::<Seq<char>, DbErrorView>(x),
{
    assert(has_node(db.nodes, x));
}

/// When no node has id `x` and no title is the same text as `x` up to ASCII
/// case, `x` does not resolve.
pub proof fn lemma_unmatched_reference_fails(db: StoreView, x: Seq<char>)
    requires
        forall|j: int| 0 <= j < db.nodes.len() ==> (#[trigger] db.nodes[j]).id != x,
        forall|j: int|
            0 <= j < db.nodes.len() ==> !same_text_any_case((#[trigger] db.nodes[j]).title, x),
    ensures
        spec_resolve_node(db, x) is Err,
{
    let p = title_matches(x);
    assert forall|j: int| 0 <= j < db.nodes.len() implies !p(#[trigger] db.nodes[j]) by {
        lemma_title_match_is_same_text(db.nodes[j], x);
    }
    assert(db.nodes.all(|n: NodeView| !p(n)));
    db.nodes.lemma_all_neg_filter_empty(p);
}

/// When no node has id `x` and two nodes' titles are the same text as `x` up
/// to ASCII case, `x` does not resolve: the reference is ambiguous.
pub proof fn lemma_ambiguous_reference_fails(db: StoreView, x: Seq<char>, j: int, k: int)
    requires
        forall|m: int| 0 <= m < db.nodes.len() ==> (#[trigger] db.nodes[m]).id != x,
        0 <= j < k < db.nodes.len(),
        same_text_any_case(db.nodes[j].title, x),
        same_text_any_case(db.nodes[k].title, x),
    ensures
        spec_resolve_node(db, x) is Err,
{
    let p = title_matches(x);
    lemma_title_match_is_same_text(db.nodes[j], x);
    lemma_title_match_is_same_text(db.nodes[k], x);
    let a = db.nodes.subrange(0, k);
    let b = db.nodes.subrange(k, db.nodes.len() as int);
    assert(db.nodes =~= a + b);
    Seq::filter_distributes_over_add(a, b, p);
    assert(a[j] == db.nodes[j]);
    assert(b[0] == db.nodes[k]);
    assert(a.filter(p).contains(a[j]));
    assert(b.filter(p).contains(b[0]));
    assert(a.filter(p).len() >= 1);
    assert(b.filter(p).len() >= 1);
}

/// When no node has id `x` and exactly one node's title is the same text as
/// `x` up to ASCII case, `x` resolves to that node's id.
pub proof fn lemma_unique_title_resolves(db: StoreView, x: Seq<char>, k: int)
    requires
        forall|j: int| 0 <= j < db.nodes.len() ==> (#[trigger] db.nodes[j]).id != x,
        0 <= k < db.nodes.len(),
        same_text_any_case(db.nodes[k].title, x),
        forall|j: int|
            0 <= j < db.nodes.len() && same_text_any_case((#[trigger] db.nodes[j]).title, x) ==> j
                == k,
    ensures
        spec_resolve_node(db, x) == Ok::<Seq<char>, DbErrorView>(db.nodes[k].id),
{
    assert(!has_node(db.nodes, x));
    let p = title_matches(x);
    lemma_title_match_is_same_text(db.nodes[k], x);
    assert forall|j: int| 0 <= j < db.nodes.len() && #[trigger] p(db.nodes[j]) implies j == k by {
        lemma_title_match_is_same_text(db.nodes[j], x);
    }
    lemma_filter_single(db.nodes, p, k);
}

} // verus!
