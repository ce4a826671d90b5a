//! Checking that rows read back from the file meet the schema's constraints.
use vstd::prelude::*;
use crate::db::{NodeTag, Tables};
use crate::models::views;
use crate::laws::{distinct_edges, distinct_entries, distinct_links, distinct_nodes, distinct_tags, wf};
use crate::models::{Edge, EdgeView, HistoryView, Node, StatusHistoryEntry, Tag};
use crate::rows::{all_pairs, all_rows};
use crate::tables::{find_node, find_tag_id, has_node, has_tag_id};
use crate::text::str_eq;

verus! {

/// Whether `t` meets the schema's constraints.
pub fn meets_schema(t: &Tables) -> (r: bool)
    ensures
        r == wf(t@),
{
    let ghost db = t@;
    let nodes_ok_check = |x: &Node, y: &Node| -> (b: bool)
        ensures
            b == (x@.id != y@.id),
        { !str_eq(x.id.as_str(), y.id.as_str()) };
    let nodes_ok = all_pairs(&t.nodes, nodes_ok_check, Ghost(distinct_nodes()));
    let edges_ok_check = |x: &Edge, y: &Edge| -> (b: bool)
        ensures
            b == (x@.id != y@.id && !(x@.source_id == y@.source_id && x@.target_id
                == y@.target_id && x@.edge_type == y@.edge_type)),
        {
            !str_eq(x.id.as_str(), y.id.as_str()) && !(str_eq(
                x.source_id.as_str(),
                y.source_id.as_str(),
            ) && str_eq(x.target_id.as_str(), y.target_id.as_str()) && x.edge_type
                == y.edge_type)
        };
    let edges_ok = all_pairs(&t.edges, edges_ok_check, Ghost(distinct_edges()));
    let tags_ok_check = |x: &Tag, y: &Tag| -> (b: bool)
        ensures
            b == (x@.id != y@.id && x@.name != y@.name),
        { !str_eq(x.id.as_str(), y.id.as_str()) && !str_eq(x.name.as_str(), y.name.as_str()) };
    let tags_ok = all_pairs(&t.tags, tags_ok_check, Ghost(distinct_tags()));
    let links_ok_check = |x: &NodeTag, y: &NodeTag| -> (b: bool)
        ensures
            b == (x@ != y@),
        {
            !(str_eq(x.node_id.as_str(), y.node_id.as_str()) && str_eq(
                x.tag_id.as_str(),
                y.tag_id.as_str(),
            ))
        };
    let links_ok = all_pairs(&t.node_tags, links_ok_check, Ghost(distinct_links()));
    let entries_ok_check = |x: &StatusHistoryEntry, y: &StatusHistoryEntry| -> (b: bool)
        ensures
            b == (x@.id != y@.id),
        { !str_eq(x.id.as_str(), y.id.as_str()) };
    let entries_ok = all_pairs(&t.history, entries_ok_check, Ghost(distinct_entries()));
    let edge_refs_check = |e: &Edge| -> (b: bool)
        ensures
            b == (has_node(t@.nodes, e@.source_id) && has_node(t@.nodes, e@.target_id)),
        {
            find_node(&t.nodes, e.source_id.as_str()).is_some() && find_node(
                &t.nodes,
                e.target_id.as_str(),
            ).is_some()
        };
    let ghost edge_ok = |e: EdgeView| has_node(db.nodes, e.source_id) && has_node(db.nodes, e.target_id);
    let edge_refs = all_rows(&t.edges, edge_refs_check, Ghost(edge_ok));
    let link_refs_check = |l: &NodeTag| -> (b: bool)
        ensures
            b == (has_node(t@.nodes, l@.0) && has_tag_id(t@.tags, l@.1)),
        {
            find_node(&t.nodes, l.node_id.as_str()).is_some() && find_tag_id(
                &t.tags,
                l.tag_id.as_str(),
            )
        };
    let ghost link_ok = |l: (Seq<char>, Seq<char>)| has_node(db.nodes, l.0) && has_tag_id(db.tags, l.1);
    let link_refs = all_rows(&t.node_tags, link_refs_check, Ghost(link_ok));
    let entry_refs_check = |h: &StatusHistoryEntry| -> (b: bool)
        ensures
            b == has_node(t@.nodes, h@.node_id),
        { find_node(&t.nodes, h.node_id.as_str()).is_some() };
    let ghost entry_ok = |h: HistoryView| has_node(db.nodes, h.node_id);
    let entry_refs = all_rows(&t.history, entry_refs_check, Ghost(entry_ok));
    proof {
        if edge_refs {
            assert forall|k: int| 0 <= k < db.edges.len() implies has_node(
                db.nodes,
                (#[trigger] db.edges[k]).source_id,
            ) && has_node(db.nodes, db.edges[k].target_id) by {
                assert(edge_ok(views(t.edges@)[k]));
            }
        } else {
            let k = choose|k: int| 0 <= k < db.edges.len() && !edge_ok(views(t.edges@)[k]);
            assert(!(has_node(db.nodes, db.edges[k].source_id) && has_node(
                db.nodes,
                db.edges[k].target_id,
            )));
        }
        if link_refs {
            assert forall|k: int| 0 <= k < db.node_tags.len() implies has_node(
                db.nodes,
                (#[trigger] db.node_tags[k]).0,
            ) && has_tag_id(db.tags, db.node_tags[k].1) by {
                assert(link_ok(views(t.node_tags@)[k]));
            }
        } else {
            let k = choose|k: int|
                0 <= k < db.node_tags.len() && !link_ok(views(t.node_tags@)[k]);
            assert(!(has_node(db.nodes, db.node_tags[k].0) && has_tag_id(
                db.tags,
                db.node_tags[k].1,
            )));
        }
        if entry_refs {
            assert forall|k: int| 0 <= k < db.history.len() implies has_node(
                db.nodes,
                (#[trigger] db.history[k]).node_id,
            ) by {
                assert(entry_ok(views(t.history@)[k]));
            }
        } else {
            let k = choose|k: int| 0 <= k < db.history.len() && !entry_ok(views(t.history@)[k]);
            assert(!has_node(db.nodes, db.history[k].node_id));
        }
    }
    nodes_ok && edges_ok && tags_ok && links_ok && entries_ok && edge_refs && link_refs
        && entry_refs
}

} // verus!
