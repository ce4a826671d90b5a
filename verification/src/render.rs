//! The human-readable text of nodes and node details that the command line
//! prints.
use vstd::prelude::*;
use crate::models::{
    node_status_name, node_type_name, views, Edge, EdgeView, Node, NodeDetail, NodeDetailView,
    NodeStatus, NodeView, Tag, TagView,
};

verus! {

/// The decimal digits of `n`, without leading zeros.
pub open spec fn decimal(n: nat) -> Seq<char>
    decreases n,
{
    if n < 10 {
        seq![(n + 48) as char]
    } else {
        decimal(n / 10) + seq![((n % 10) + 48) as char]
    }
}

/// The one decimal digit `d`.
fn digit_text(d: usize) -> (r: &'static str)
    requires
        d < 10,
    ensures
        r@ == seq![((d as nat) + 48) as char],
{
    proof {
        reveal_strlit("0");
        reveal_strlit("1");
        reveal_strlit("2");
        reveal_strlit("3");
        reveal_strlit("4");
        reveal_strlit("5");
        reveal_strlit("6");
        reveal_strlit("7");
        reveal_strlit("8");
        reveal_strlit("9");
    }
    let r = match d {
        0 => "0",
        1 => "1",
        2 => "2",
        3 => "3",
        4 => "4",
        5 => "5",
        6 => "6",
        7 => "7",
        8 => "8",
        _ => "9",
    };
    assert(r@ =~= seq![((d as nat) + 48) as char]);
    r
}

/// `n` in decimal, without leading zeros.
fn usize_text(n: usize) -> (r: String)
    ensures
        r@ == decimal(n as nat),
    decreases n,
{
    if n < 10 {
        crate::text::owned(digit_text(n))
    } else {
        let mut r = usize_text(n / 10);
        r.append(digit_text(n % 10));
        r
    }
}

/// The concatenation of `f` applied to each element, in order.
pub open spec fn concat_map<A>(s: Seq<A>, f: spec_fn(A) -> Seq<char>) -> Seq<char>
    decreases s.len(),
{
    if s.len() == 0 {
        Seq::empty()
    } else {
        concat_map(s.drop_last(), f) + f(s.last())
    }
}

/// One line per node in lists: `[type] id — title (status)`.
pub open spec fn node_line_text(n: NodeView) -> Seq<char> {
    "["@ + node_type_name(n.node_type) + "] "@ + n.id + " — "@ + n.title + " ("@
        + node_status_name(n.status) + ")"@
}

pub fn node_line(node: &Node) -> (r: String)
    ensures
        r@ == node_line_text(node@),
{
    let mut r = crate::text::owned("[");
    r.append(node.node_type.as_str());
    r.append("] ");
    r.append(node.id.as_str());
    r.append(" — ");
    r.append(node.title.as_str());
    r.append(" (");
    r.append(node.status.as_str());
    r.append(")");
    r
}

/// Tag names separated by ", ".
pub open spec fn tag_names(tags: Seq<TagView>) -> Seq<char>
    decreases tags.len(),
{
    if tags.len() == 0 {
        Seq::empty()
    } else if tags.len() == 1 {
        tags[0].name
    } else {
        tag_names(tags.drop_last()) + ", "@ + tags.last().name
    }
}

pub open spec fn tags_text(tags: Seq<TagView>) -> Seq<char> {
    if tags.len() == 0 {
        Seq::empty()
    } else {
        "Tags: "@ + tag_names(tags) + "\n"@
    }
}

pub open spec fn progress_text(p: Option<(nat, nat)>) -> Seq<char> {
    match p {
        Some(p) => "Progress: "@ + decimal(p.0) + "/"@ + decimal(p.1) + "\n"@,
        None => Seq::empty(),
    }
}

pub open spec fn child_line(c: NodeView) -> Seq<char> {
    "  "@ + (if c.status == NodeStatus::Completed {
        "✓"@
    } else {
        "○"@
    }) + " ["@ + node_type_name(c.node_type) + "] "@ + c.id + " — "@ + c.title + "\n"@
}

pub open spec fn children_text(children: Seq<NodeView>) -> Seq<char> {
    if children.len() == 0 {
        Seq::empty()
    } else {
        "\n--- Children ---\n"@ + concat_map(children, |c: NodeView| child_line(c))
    }
}

pub open spec fn blocks_line(e: EdgeView) -> Seq<char> {
    "  → blocks "@ + e.target_id + "\n"@
}

pub open spec fn blocked_by_line(e: EdgeView) -> Seq<char> {
    "  ← blocked by "@ + e.source_id + "\n"@
}

/// A related edge names the node at its other end.
pub open spec fn related_line(node_id: Seq<char>, e: EdgeView) -> Seq<char> {
    "  ↔ related to "@ + (if e.source_id == node_id {
        e.target_id
    } else {
        e.source_id
    }) + "\n"@
}

pub open spec fn connections_text(d: NodeDetailView) -> Seq<char> {
    if d.blocks.len() == 0 && d.blocked_by.len() == 0 && d.related.len() == 0 {
        Seq::empty()
    } else {
        "\n--- Connections ---\n"@ + concat_map(d.blocks, |e: EdgeView| blocks_line(e))
            + concat_map(d.blocked_by, |e: EdgeView| blocked_by_line(e)) + concat_map(
            d.related,
            |e: EdgeView| related_line(d.node.id, e),
        )
    }
}

pub open spec fn header_text(n: NodeView) -> Seq<char> {
    "=== "@ + n.title + " ===\n"@ + "Type: "@ + node_type_name(n.node_type) + "  Status: "@
        + node_status_name(n.status) + "  ID: "@ + n.id + "\n"@
}

pub open spec fn description_text(n: NodeView) -> Seq<char> {
    "\n"@ + n.description + "\n"@
}

/// The full text that `bd show` prints for a node.
pub open spec fn detail_text(d: NodeDetailView) -> Seq<char> {
    header_text(d.node) + tags_text(d.tags) + progress_text(d.progress) + description_text(d.node)
        + children_text(d.children) + connections_text(d)
}

fn append_tag_names(out: &mut String, tags: &Vec<Tag>)
    requires
        tags.len() > 0,
    ensures
        final(out)@ == old(out)@ + tag_names(views(tags@)),
{
    let ghost start = out@;
    let ghost ts = views(tags@);
    let mut i: usize = 0;
    while i < tags.len()
        invariant
            ts == views(tags@),
            i <= tags.len(),
            out@ == start + tag_names(ts.take(i as int)),
        decreases tags.len() - i,
    {
        if i > 0 {
            out.append(", ");
        }
        out.append(tags[i].name.as_str());
        proof {
            let t = ts.take(i + 1);
            assert(t.drop_last() =~= ts.take(i as int));
            assert(t.last() == tags[i as int]@);
            if i == 0 {
                assert(t.len() == 1);
                assert(ts.take(0) =~= Seq::<TagView>::empty());
            }
        }
        i = i + 1;
    }
    proof {
        assert(ts.take(tags.len() as int) =~= ts);
    }
}

fn append_children(out: &mut String, children: &Vec<Node>)
    ensures
        final(out)@ == old(out)@ + concat_map(views(children@), |c: NodeView| child_line(c)),
{
    let ghost start = out@;
    let ghost cs = views(children@);
    let ghost f = |c: NodeView| child_line(c);
    let mut i: usize = 0;
    while i < children.len()
        invariant
            cs == views(children@),
            f == (|c: NodeView| child_line(c)),
            i <= children.len(),
            out@ == start + concat_map(cs.take(i as int), f),
        decreases children.len() - i,
    {
        let c = &children[i];
        out.append("  ");
        if c.status == NodeStatus::Completed {
            out.append("✓");
        } else {
            out.append("○");
        }
        out.append(" [");
        out.append(c.node_type.as_str());
        out.append("] ");
        out.append(c.id.as_str());
        out.append(" — ");
        out.append(c.title.as_str());
        out.append("\n");
        proof {
            let t = cs.take(i + 1);
            assert(t.drop_last() =~= cs.take(i as int));
            assert(t.last() == c@);
        }
        i = i + 1;
    }
    proof {
        assert(cs.take(children.len() as int) =~= cs);
    }
}

/// Which line an edge gets in the connections block.
pub enum EdgeLine {
    Blocks,
    BlockedBy,
    RelatedTo,
}

pub open spec fn edge_line(kind: EdgeLine, node_id: Seq<char>, e: EdgeView) -> Seq<char> {
    match kind {
        EdgeLine::Blocks => blocks_line(e),
        EdgeLine::BlockedBy => blocked_by_line(e),
        EdgeLine::RelatedTo => related_line(node_id, e),
    }
}

fn append_edges(out: &mut String, edges: &Vec<Edge>, kind: EdgeLine, node_id: &str)
    ensures
        final(out)@ == old(out)@ + concat_map(
            views(edges@),
            |e: EdgeView| edge_line(kind, node_id@, e),
        ),
{
    let ghost start = out@;
    let ghost es = views(edges@);
    let ghost f = |e: EdgeView| edge_line(kind, node_id@, e);
    let mut i: usize = 0;
    while i < edges.len()
        invariant
            es == views(edges@),
            f == (|e: EdgeView| edge_line(kind, node_id@, e)),
            i <= edges.len(),
            out@ == start + concat_map(es.take(i as int), f),
        decreases edges.len() - i,
    {
        let e = &edges[i];
        match kind {
            EdgeLine::Blocks => {
                out.append("  → blocks ");
                out.append(e.target_id.as_str());
            },
            EdgeLine::BlockedBy => {
                out.append("  ← blocked by ");
                out.append(e.source_id.as_str());
            },
            EdgeLine::RelatedTo => {
                out.append("  ↔ related to ");
                if crate::text::str_eq(e.source_id.as_str(), node_id) {
                    out.append(e.target_id.as_str());
                } else {
                    out.append(e.source_id.as_str());
                }
            },
        }
        out.append("\n");
        proof {
            let t = es.take(i + 1);
            assert(t.drop_last() =~= es.take(i as int));
            assert(t.last() == e@);
        }
        i = i + 1;
    }
    proof {
        assert(es.take(edges.len() as int) =~= es);
    }
}

fn append_header(out: &mut String, n: &Node)
    ensures
        final(out)@ == old(out)@ + header_text(n@),
{
    let ghost start = out@;
    let mut h = String::new();
    h.append("=== ");
    h.append(n.title.as_str());
    h.append(" ===\n");
    h.append("Type: ");
    h.append(n.node_type.as_str());
    h.append("  Status: ");
    h.append(n.status.as_str());
    h.append("  ID: ");
    h.append(n.id.as_str());
    h.append("\n");
    assert(h@ =~= header_text(n@));
    out.append(h.as_str());
}

fn append_tags(out: &mut String, tags: &Vec<Tag>)
    ensures
        final(out)@ == old(out)@ + tags_text(views(tags@)),
{
    if tags.len() > 0 {
        let mut t = String::new();
        t.append("Tags: ");
        append_tag_names(&mut t, tags);
        t.append("\n");
        assert(t@ =~= tags_text(views(tags@)));
        out.append(t.as_str());
    } else {
        assert(out@ =~= out@ + tags_text(views(tags@)));
    }
}

fn append_progress(out: &mut String, progress: Option<crate::models::Progress>)
    ensures
        final(out)@ == old(out)@ + progress_text(
            match progress {
                Some(p) => Some(p@),
                None => None,
            },
        ),
{
    match progress {
        Some(p) => {
            let mut t = String::new();
            t.append("Progress: ");
            t.append(usize_text(p.completed).as_str());
            t.append("/");
            t.append(usize_text(p.total).as_str());
            t.append("\n");
            assert(t@ =~= progress_text(Some(p@)));
            out.append(t.as_str());
        },
        None => {
            assert(out@ =~= out@ + progress_text(None));
        },
    }
}

fn append_description(out: &mut String, n: &Node)
    ensures
        final(out)@ == old(out)@ + description_text(n@),
{
    let mut t = String::new();
    t.append("\n");
    t.append(n.description.as_str());
    t.append("\n");
    assert(t@ =~= description_text(n@));
    out.append(t.as_str());
}

fn append_children_block(out: &mut String, children: &Vec<Node>)
    ensures
        final(out)@ == old(out)@ + children_text(views(children@)),
{
    if children.len() > 0 {
        let mut t = String::new();
        t.append("\n--- Children ---\n");
        append_children(&mut t, children);
        assert(t@ =~= children_text(views(children@)));
        out.append(t.as_str());
    } else {
        assert(out@ =~= out@ + children_text(views(children@)));
    }
}

fn append_connections(out: &mut String, d: &NodeDetail)
    ensures
        final(out)@ == old(out)@ + connections_text(d@),
{
    let ghost dv = d@;
    if d.blocks.len() > 0 || d.blocked_by.len() > 0 || d.related.len() > 0 {
        let mut t = String::new();
        t.append("\n--- Connections ---\n");
        append_edges(&mut t, &d.blocks, EdgeLine::Blocks, d.node.id.as_str());
        append_edges(&mut t, &d.blocked_by, EdgeLine::BlockedBy, d.node.id.as_str());
        append_edges(&mut t, &d.related, EdgeLine::RelatedTo, d.node.id.as_str());
        proof {
            assert((|e: EdgeView| edge_line(EdgeLine::Blocks, dv.node.id, e)) =~= (|e: EdgeView|
                blocks_line(e)));
            assert((|e: EdgeView| edge_line(EdgeLine::BlockedBy, dv.node.id, e)) =~= (|e: EdgeView|
                blocked_by_line(e)));
            assert((|e: EdgeView| edge_line(EdgeLine::RelatedTo, dv.node.id, e)) =~= (|e: EdgeView|
                related_line(dv.node.id, e)));
            assert(t@ =~= connections_text(dv));
        }
        out.append(t.as_str());
    } else {
        assert(out@ =~= out@ + connections_text(dv));
    }
}

/// The text that `bd show` prints for `detail`.
pub fn render_detail(detail: &NodeDetail) -> (r: String)
    ensures
        r@ == detail_text(detail@),
{
    let mut out = String::new();
    append_header(&mut out, &detail.node);
    append_tags(&mut out, &detail.tags);
    append_progress(&mut out, detail.progress);
    append_description(&mut out, &detail.node);
    append_children_block(&mut out, &detail.children);
    append_connections(&mut out, detail);
    assert(out@ =~= detail_text(detail@));
    out
}

} // verus!
