use brain_dump_core::db::{DbError, Store};
use brain_dump_core::models::{EdgeType, NodeStatus, NodeType};
use brain_dump_core::render::{node_line, render_detail};
use brain_dump_core::queries::{
    add_tag, add_tag_with, create_edge, create_edge_with, create_node, create_node_with,
    delete_edge, delete_node, get_children, get_edges, get_node, get_node_detail, get_node_tags,
    has_path, list_nodes, list_tags, remove_tag, resolve_node, update_node, update_node_with,
};

fn setup() -> Store {
    Store::new()
}

fn custom(e: DbError) -> String {
    match e {
        DbError::Custom(m) => m,
        other => panic!("unexpected error {:?}", other),
    }
}

#[test]
fn test_create_and_get_project() {
    let mut conn = setup();
    let node = create_node(&mut conn, NodeType::Project, "Test Project", None).unwrap();
    assert_eq!(node.title, "Test Project");
    assert_eq!(node.node_type, NodeType::Project);
    assert_eq!(node.status, NodeStatus::Active);
    assert!(node.description.contains("## Goal"));

    let fetched = get_node(&conn, &node.id).unwrap();
    assert_eq!(fetched.id, node.id);
}

#[test]
fn test_create_phase_under_project() {
    let mut conn = setup();
    let project = create_node(&mut conn, NodeType::Project, "P1", None).unwrap();
    let phase = create_node(&mut conn, NodeType::Phase, "Phase 1", Some(&project.id)).unwrap();
    assert_eq!(phase.node_type, NodeType::Phase);

    let phases = list_nodes(&conn, NodeType::Phase, Some(&project.id), None, None).unwrap();
    assert_eq!(phases.len(), 1);
    assert_eq!(phases[0].id, phase.id);
}

#[test]
fn test_create_task_under_phase() {
    let mut conn = setup();
    let project = create_node(&mut conn, NodeType::Project, "P1", None).unwrap();
    let phase = create_node(&mut conn, NodeType::Phase, "Phase 1", Some(&project.id)).unwrap();
    let task = create_node(&mut conn, NodeType::Task, "Task 1", Some(&phase.id)).unwrap();
    assert_eq!(task.node_type, NodeType::Task);
}

#[test]
fn test_hierarchy_enforcement() {
    let mut conn = setup();
    let project = create_node(&mut conn, NodeType::Project, "P1", None).unwrap();
    // Can't add a task directly under a project
    let err = create_node(&mut conn, NodeType::Task, "T1", Some(&project.id));
    assert!(err.is_err());
}

#[test]
fn test_update_node_status_logs_history() {
    let mut conn = setup();
    let node = create_node(&mut conn, NodeType::Project, "P1", None).unwrap();
    update_node(&mut conn, &node.id, None, None, Some(NodeStatus::Completed), None).unwrap();

    let count = conn.tables().history.iter().filter(|h| h.node_id == node.id).count();
    assert_eq!(count, 1);
}

#[test]
fn test_delete_node_cascades_children() {
    let mut conn = setup();
    let project = create_node(&mut conn, NodeType::Project, "P1", None).unwrap();
    let phase = create_node(&mut conn, NodeType::Phase, "Phase 1", Some(&project.id)).unwrap();
    let task = create_node(&mut conn, NodeType::Task, "Task 1", Some(&phase.id)).unwrap();

    delete_node(&mut conn, &project.id).unwrap();

    // Phase should also be gone (recursive delete)
    assert!(get_node(&conn, &phase.id).is_err());
    // Also verify the task (grandchild) is gone
    assert!(get_node(&conn, &task.id).is_err());
}

#[test]
fn test_list_projects_by_status() {
    let mut conn = setup();
    create_node(&mut conn, NodeType::Project, "Active", None).unwrap();
    let p2 = create_node(&mut conn, NodeType::Project, "Done", None).unwrap();
    update_node(&mut conn, &p2.id, None, None, Some(NodeStatus::Completed), None).unwrap();

    let active = list_nodes(&conn, NodeType::Project, None, Some(NodeStatus::Active), None).unwrap();
    assert_eq!(active.len(), 1);
    assert_eq!(active[0].title, "Active");
}

#[test]
fn test_create_blocks_edge() {
    let mut conn = setup();
    let p1 = create_node(&mut conn, NodeType::Project, "P1", None).unwrap();
    let p2 = create_node(&mut conn, NodeType::Project, "P2", None).unwrap();
    let edge = create_edge(&mut conn, &p1.id, &p2.id, EdgeType::Blocks).unwrap();
    assert_eq!(edge.edge_type, EdgeType::Blocks);
}

#[test]
fn test_cycle_detection() {
    let mut conn = setup();
    let p1 = create_node(&mut conn, NodeType::Project, "P1", None).unwrap();
    let p2 = create_node(&mut conn, NodeType::Project, "P2", None).unwrap();
    let p3 = create_node(&mut conn, NodeType::Project, "P3", None).unwrap();

    create_edge(&mut conn, &p1.id, &p2.id, EdgeType::Blocks).unwrap();
    create_edge(&mut conn, &p2.id, &p3.id, EdgeType::Blocks).unwrap();

    // p3 -> p1 would create a cycle
    let err = create_edge(&mut conn, &p3.id, &p1.id, EdgeType::Blocks);
    assert!(err.is_err());
}

#[test]
fn test_related_edge() {
    let mut conn = setup();
    let p1 = create_node(&mut conn, NodeType::Project, "P1", None).unwrap();
    let p2 = create_node(&mut conn, NodeType::Project, "P2", None).unwrap();
    create_edge(&mut conn, &p1.id, &p2.id, EdgeType::Related).unwrap();

    let edges = get_edges(&conn, &p1.id).unwrap();
    let related: Vec<_> = edges.iter().filter(|e| e.edge_type == EdgeType::Related).collect();
    assert_eq!(related.len(), 1);
}

#[test]
fn test_delete_edge() {
    let mut conn = setup();
    let p1 = create_node(&mut conn, NodeType::Project, "P1", None).unwrap();
    let p2 = create_node(&mut conn, NodeType::Project, "P2", None).unwrap();
    create_edge(&mut conn, &p1.id, &p2.id, EdgeType::Blocks).unwrap();
    delete_edge(&mut conn, &p1.id, EdgeType::Blocks, &p2.id).unwrap();

    let edges = get_edges(&conn, &p1.id).unwrap();
    let blocks: Vec<_> = edges.iter().filter(|e| e.edge_type == EdgeType::Blocks).collect();
    assert_eq!(blocks.len(), 0);
}

#[test]
fn test_add_and_list_tags() {
    let mut conn = setup();
    let p = create_node(&mut conn, NodeType::Project, "P1", None).unwrap();
    add_tag(&mut conn, &p.id, "rust").unwrap();
    add_tag(&mut conn, &p.id, "ml").unwrap();

    let tags = get_node_tags(&conn, &p.id).unwrap();
    assert_eq!(tags.len(), 2);

    let all_tags = list_tags(&conn).unwrap();
    assert_eq!(all_tags.len(), 2);
}

#[test]
fn test_remove_tag() {
    let mut conn = setup();
    let p = create_node(&mut conn, NodeType::Project, "P1", None).unwrap();
    add_tag(&mut conn, &p.id, "rust").unwrap();
    remove_tag(&mut conn, &p.id, "rust").unwrap();

    let tags = get_node_tags(&conn, &p.id).unwrap();
    assert_eq!(tags.len(), 0);
}

#[test]
fn test_get_node_detail() {
    let mut conn = setup();
    let project = create_node(&mut conn, NodeType::Project, "P1", None).unwrap();
    let phase = create_node(&mut conn, NodeType::Phase, "Phase 1", Some(&project.id)).unwrap();
    create_node(&mut conn, NodeType::Task, "T1", Some(&phase.id)).unwrap();
    create_node(&mut conn, NodeType::Task, "T2", Some(&phase.id)).unwrap();
    add_tag(&mut conn, &project.id, "rust").unwrap();

    let detail = get_node_detail(&conn, &project.id).unwrap();
    assert_eq!(detail.children.len(), 1); // 1 phase
    assert_eq!(detail.tags.len(), 1);
    assert_eq!(detail.progress.unwrap().total, 1);
}

#[test]
fn test_resolve_node_by_title() {
    let mut conn = setup();
    let p = create_node(&mut conn, NodeType::Project, "My Project", None).unwrap();
    let resolved = resolve_node(&conn, "my project").unwrap();
    assert_eq!(resolved, p.id);
}

// ---------------------------------------------------------------------------
// Scenarios with chosen identifiers and times
// ---------------------------------------------------------------------------

#[test]
fn create_with_given_ids_reads_back_exactly() {
    let mut conn = setup();
    let n = create_node_with(&mut conn, "N1", "", "2024-01-01T00:00:00+00:00", NodeType::Project, "Alpha", None)
        .unwrap();
    assert_eq!(n.id, "N1");
    assert_eq!(n.sort_order, 0);
    assert_eq!(n.created_at, "2024-01-01T00:00:00+00:00");
    assert_eq!(n.updated_at, n.created_at);
    assert_eq!(n.status, NodeStatus::Active);
    let back = get_node(&conn, "N1").unwrap();
    assert_eq!(back.title, "Alpha");
    assert_eq!(back.description, n.description);
}

#[test]
fn create_refuses_a_clashing_id_and_writes_nothing() {
    let mut conn = setup();
    create_node_with(&mut conn, "N1", "", "t", NodeType::Project, "A", None).unwrap();
    let err = create_node_with(&mut conn, "N1", "", "t", NodeType::Project, "B", None).unwrap_err();
    match err {
        DbError::Sqlite(m) => assert_eq!(m, "UNIQUE constraint failed: nodes.id"),
        other => panic!("unexpected {:?}", other),
    }
    assert_eq!(conn.tables().nodes.len(), 1);
}

#[test]
fn create_refuses_a_clashing_edge_id_and_writes_nothing() {
    let mut conn = setup();
    create_node_with(&mut conn, "P", "", "t", NodeType::Project, "P", None).unwrap();
    create_node_with(&mut conn, "A", "E", "t", NodeType::Phase, "A", Some("P")).unwrap();
    let err = create_node_with(&mut conn, "B", "E", "t", NodeType::Phase, "B", Some("P")).unwrap_err();
    match err {
        DbError::Sqlite(m) => assert_eq!(m, "UNIQUE constraint failed: edges.id"),
        other => panic!("unexpected {:?}", other),
    }
    assert_eq!(conn.tables().nodes.len(), 2);
    assert_eq!(conn.tables().edges.len(), 1);
}

#[test]
fn hierarchy_messages() {
    let mut conn = setup();
    create_node_with(&mut conn, "P", "", "t", NodeType::Project, "P", None).unwrap();
    create_node_with(&mut conn, "F", "e1", "t", NodeType::Phase, "F", Some("P")).unwrap();
    create_node_with(&mut conn, "T", "e2", "t", NodeType::Task, "T", Some("F")).unwrap();
    let e = create_node_with(&mut conn, "X", "e3", "t", NodeType::Task, "X", Some("P")).unwrap_err();
    assert_eq!(custom(e), "project can only contain phase children, not task");
    let e = create_node_with(&mut conn, "Y", "e4", "t", NodeType::Task, "Y", Some("T")).unwrap_err();
    assert_eq!(custom(e), "task nodes cannot have children");
    let e = create_node_with(&mut conn, "Z", "e5", "t", NodeType::Phase, "Z", Some("nope")).unwrap_err();
    assert_eq!(custom(e), "node not found: nope");
    assert_eq!(conn.tables().nodes.len(), 3);
}

#[test]
fn update_without_status_change_logs_nothing() {
    let mut conn = setup();
    create_node_with(&mut conn, "N", "", "t0", NodeType::Project, "A", None).unwrap();
    let n = update_node_with(&mut conn, "N", Some("B"), Some("desc"), Some(NodeStatus::Active), Some(7), "t1", "h1")
        .unwrap();
    assert_eq!(n.title, "B");
    assert_eq!(n.description, "desc");
    assert_eq!(n.sort_order, 7);
    assert_eq!(n.updated_at, "t1");
    assert_eq!(n.created_at, "t0");
    assert!(conn.tables().history.is_empty());
}

#[test]
fn update_with_status_change_logs_old_and_new() {
    let mut conn = setup();
    create_node_with(&mut conn, "N", "", "t0", NodeType::Project, "A", None).unwrap();
    let n = update_node_with(&mut conn, "N", None, None, Some(NodeStatus::Archived), None, "t1", "h1")
        .unwrap();
    assert_eq!(n.title, "A");
    assert_eq!(n.status, NodeStatus::Archived);
    assert_eq!(conn.tables().history.len(), 1);
    let h = &conn.tables().history[0];
    assert_eq!(h.id, "h1");
    assert_eq!(h.node_id, "N");
    assert_eq!(h.old_status, "active");
    assert_eq!(h.new_status, "archived");
    assert_eq!(h.changed_at, "t1");
}

#[test]
fn update_of_a_missing_node_fails() {
    let mut conn = setup();
    let e = update_node_with(&mut conn, "none", Some("x"), None, None, None, "t", "h").unwrap_err();
    assert_eq!(custom(e), "node not found: none");
}

#[test]
fn update_with_clashing_history_id_keeps_the_row_update() {
    let mut conn = setup();
    create_node_with(&mut conn, "N", "", "t0", NodeType::Project, "A", None).unwrap();
    update_node_with(&mut conn, "N", None, None, Some(NodeStatus::Completed), None, "t1", "h1").unwrap();
    let e = update_node_with(&mut conn, "N", Some("B"), None, Some(NodeStatus::Active), None, "t2", "h1")
        .unwrap_err();
    match e {
        DbError::Sqlite(m) => assert_eq!(m, "UNIQUE constraint failed: status_history.id"),
        other => panic!("unexpected {:?}", other),
    }
    let n = get_node(&conn, "N").unwrap();
    assert_eq!(n.title, "B");
    assert_eq!(n.status, NodeStatus::Active);
    assert_eq!(conn.tables().history.len(), 1);
}

#[test]
fn delete_spares_other_trees_and_cascades_rows() {
    let mut conn = setup();
    create_node_with(&mut conn, "P", "", "t", NodeType::Project, "P", None).unwrap();
    create_node_with(&mut conn, "F", "e1", "t", NodeType::Phase, "F", Some("P")).unwrap();
    create_node_with(&mut conn, "Q", "", "t", NodeType::Project, "Q", None).unwrap();
    create_edge_with(&mut conn, "b1", "t", "F", "Q", EdgeType::Blocks).unwrap();
    add_tag_with(&mut conn, "tag1", "F", "rust").unwrap();
    update_node_with(&mut conn, "F", None, None, Some(NodeStatus::Completed), None, "t", "h1").unwrap();
    delete_node(&mut conn, "P").unwrap();
    assert!(get_node(&conn, "F").is_err());
    assert!(get_node(&conn, "Q").is_ok());
    assert!(conn.tables().edges.is_empty());
    assert!(conn.tables().node_tags.is_empty());
    assert!(conn.tables().history.is_empty());
    assert_eq!(conn.tables().tags.len(), 1);
    let e = delete_node(&mut conn, "P").unwrap_err();
    assert_eq!(custom(e), "node not found: P");
}

#[test]
fn delete_terminates_on_a_parent_cycle() {
    let mut conn = setup();
    create_node_with(&mut conn, "A", "", "t", NodeType::Project, "A", None).unwrap();
    create_node_with(&mut conn, "B", "", "t", NodeType::Project, "B", None).unwrap();
    create_node_with(&mut conn, "C", "", "t", NodeType::Project, "C", None).unwrap();
    create_edge_with(&mut conn, "e1", "t", "A", "B", EdgeType::Parent).unwrap();
    create_edge_with(&mut conn, "e2", "t", "B", "A", EdgeType::Parent).unwrap();
    delete_node(&mut conn, "A").unwrap();
    assert_eq!(conn.tables().nodes.len(), 1);
    assert_eq!(conn.tables().nodes[0].id, "C");
}

#[test]
fn children_are_ordered_by_sort_order_then_creation() {
    let mut conn = setup();
    create_node_with(&mut conn, "P", "", "t", NodeType::Project, "P", None).unwrap();
    create_node_with(&mut conn, "C", "e3", "2024-03", NodeType::Phase, "third", Some("P")).unwrap();
    create_node_with(&mut conn, "A", "e1", "2024-01", NodeType::Phase, "first", Some("P")).unwrap();
    create_node_with(&mut conn, "B", "e2", "2024-02", NodeType::Phase, "second", Some("P")).unwrap();
    update_node_with(&mut conn, "A", None, None, None, Some(5), "2024-04", "h").unwrap();
    let kids = get_children(&conn, "P").unwrap();
    let titles: Vec<&str> = kids.iter().map(|n| n.title.as_str()).collect();
    assert_eq!(titles, vec!["second", "third", "first"]);
}

#[test]
fn list_nodes_filters_by_tag_and_parent() {
    let mut conn = setup();
    create_node_with(&mut conn, "P", "", "t1", NodeType::Project, "P", None).unwrap();
    create_node_with(&mut conn, "Q", "", "t2", NodeType::Project, "Q", None).unwrap();
    add_tag_with(&mut conn, "g1", "Q", "ml").unwrap();
    let tagged = list_nodes(&conn, NodeType::Project, None, None, Some("ml")).unwrap();
    assert_eq!(tagged.len(), 1);
    assert_eq!(tagged[0].id, "Q");
    assert!(list_nodes(&conn, NodeType::Project, None, None, Some("none")).unwrap().is_empty());
    assert!(list_nodes(&conn, NodeType::Phase, Some("P"), None, None).unwrap().is_empty());
    assert_eq!(list_nodes(&conn, NodeType::Project, None, None, None).unwrap().len(), 2);
}

#[test]
fn blocks_self_loop_and_duplicates_are_refused() {
    let mut conn = setup();
    create_node_with(&mut conn, "A", "", "t", NodeType::Project, "A", None).unwrap();
    create_node_with(&mut conn, "B", "", "t", NodeType::Project, "B", None).unwrap();
    let e = create_edge_with(&mut conn, "x", "t", "A", "A", EdgeType::Blocks).unwrap_err();
    assert_eq!(custom(e), "creating this edge would form a cycle in the dependency graph");
    create_edge_with(&mut conn, "x", "t", "A", "B", EdgeType::Related).unwrap();
    let e = create_edge_with(&mut conn, "y", "t", "A", "B", EdgeType::Related).unwrap_err();
    match e {
        DbError::Sqlite(m) => assert_eq!(
            m,
            "UNIQUE constraint failed: edges.source_id, edges.target_id, edges.edge_type"
        ),
        other => panic!("unexpected {:?}", other),
    }
    let e = create_edge_with(&mut conn, "z", "t", "A", "nope", EdgeType::Related).unwrap_err();
    assert_eq!(custom(e), "node not found: nope");
    let e = delete_edge(&mut conn, "B", EdgeType::Related, "A").unwrap_err();
    assert_eq!(custom(e), "edge not found");
}

#[test]
fn has_path_follows_one_edge_type() {
    let mut conn = setup();
    for id in ["A", "B", "C"] {
        create_node_with(&mut conn, id, "", "t", NodeType::Project, id, None).unwrap();
    }
    create_edge_with(&mut conn, "e1", "t", "A", "B", EdgeType::Blocks).unwrap();
    create_edge_with(&mut conn, "e2", "t", "B", "C", EdgeType::Related).unwrap();
    assert!(has_path(&conn, "A", "B", EdgeType::Blocks));
    assert!(has_path(&conn, "A", "A", EdgeType::Blocks));
    assert!(!has_path(&conn, "A", "C", EdgeType::Blocks));
    assert!(!has_path(&conn, "B", "A", EdgeType::Blocks));
    assert!(has_path(&conn, "B", "C", EdgeType::Related));
}

#[test]
fn tagging_twice_keeps_one_link_and_reuses_the_tag() {
    let mut conn = setup();
    create_node_with(&mut conn, "A", "", "t", NodeType::Project, "A", None).unwrap();
    create_node_with(&mut conn, "B", "", "t", NodeType::Project, "B", None).unwrap();
    let t1 = add_tag_with(&mut conn, "g1", "A", "rust").unwrap();
    let t2 = add_tag_with(&mut conn, "g2", "A", "rust").unwrap();
    let t3 = add_tag_with(&mut conn, "g3", "B", "rust").unwrap();
    assert_eq!(t1.id, "g1");
    assert_eq!(t2.id, "g1");
    assert_eq!(t3.id, "g1");
    assert_eq!(t1.color, "#8ddb9f");
    assert_eq!(conn.tables().tags.len(), 1);
    assert_eq!(conn.tables().node_tags.len(), 2);
    let e = add_tag_with(&mut conn, "g4", "nope", "rust").unwrap_err();
    assert_eq!(custom(e), "node not found: nope");
}

#[test]
fn tags_come_back_by_name() {
    let mut conn = setup();
    create_node_with(&mut conn, "A", "", "t", NodeType::Project, "A", None).unwrap();
    add_tag_with(&mut conn, "g1", "A", "zeta").unwrap();
    add_tag_with(&mut conn, "g2", "A", "alpha").unwrap();
    add_tag_with(&mut conn, "g3", "A", "mid").unwrap();
    let names: Vec<String> = get_node_tags(&conn, "A").unwrap().into_iter().map(|t| t.name).collect();
    assert_eq!(names, vec!["alpha", "mid", "zeta"]);
    let all: Vec<String> = list_tags(&conn).unwrap().into_iter().map(|t| t.name).collect();
    assert_eq!(all, vec!["alpha", "mid", "zeta"]);
}

#[test]
fn removing_an_absent_tag_fails() {
    let mut conn = setup();
    create_node_with(&mut conn, "A", "", "t", NodeType::Project, "A", None).unwrap();
    let e = remove_tag(&mut conn, "A", "rust").unwrap_err();
    assert_eq!(custom(e), "tag 'rust' not found on node A");
    add_tag_with(&mut conn, "g1", "A", "rust").unwrap();
    remove_tag(&mut conn, "A", "rust").unwrap();
    let e = remove_tag(&mut conn, "A", "rust").unwrap_err();
    assert_eq!(custom(e), "tag 'rust' not found on node A");
    assert_eq!(conn.tables().tags.len(), 1);
}

#[test]
fn detail_partitions_edges_and_counts_progress() {
    let mut conn = setup();
    create_node_with(&mut conn, "F", "", "t", NodeType::Phase, "F", None).unwrap();
    create_node_with(&mut conn, "T1", "p1", "t", NodeType::Task, "T1", Some("F")).unwrap();
    create_node_with(&mut conn, "T2", "p2", "t", NodeType::Task, "T2", Some("F")).unwrap();
    create_node_with(&mut conn, "X", "", "t", NodeType::Project, "X", None).unwrap();
    create_node_with(&mut conn, "Y", "", "t", NodeType::Project, "Y", None).unwrap();
    update_node_with(&mut conn, "T1", None, None, Some(NodeStatus::Completed), None, "t", "h").unwrap();
    create_edge_with(&mut conn, "b1", "t", "F", "X", EdgeType::Blocks).unwrap();
    create_edge_with(&mut conn, "b2", "t", "Y", "F", EdgeType::Blocks).unwrap();
    create_edge_with(&mut conn, "r1", "t", "X", "F", EdgeType::Related).unwrap();
    let d = get_node_detail(&conn, "F").unwrap();
    assert_eq!(d.node.id, "F");
    assert_eq!(d.children.len(), 2);
    assert_eq!(d.blocks.len(), 1);
    assert_eq!(d.blocks[0].target_id, "X");
    assert_eq!(d.blocked_by.len(), 1);
    assert_eq!(d.blocked_by[0].source_id, "Y");
    assert_eq!(d.related.len(), 1);
    let p = d.progress.unwrap();
    assert_eq!((p.completed, p.total), (1, 2));
    assert!(get_node_detail(&conn, "X").unwrap().progress.is_none());
    assert!(get_node_detail(&conn, "nope").is_err());
}

#[test]
fn resolve_prefers_ids_and_reports_none_or_many() {
    let mut conn = setup();
    create_node_with(&mut conn, "ID1", "", "t", NodeType::Project, "Same", None).unwrap();
    create_node_with(&mut conn, "ID2", "", "t", NodeType::Project, "same", None).unwrap();
    create_node_with(&mut conn, "Same", "", "t", NodeType::Project, "Other", None).unwrap();
    assert_eq!(resolve_node(&conn, "ID2").unwrap(), "ID2");
    assert_eq!(resolve_node(&conn, "Same").unwrap(), "Same");
    assert_eq!(resolve_node(&conn, "OTHER").unwrap(), "Same");
    let e = resolve_node(&conn, "SAME").unwrap_err();
    assert_eq!(custom(e), "multiple nodes match 'SAME':\n  ID1 — Same\n  ID2 — same");
    let e = resolve_node(&conn, "ghost").unwrap_err();
    assert_eq!(custom(e), "no node found matching 'ghost'");
}

#[test]
fn fresh_ids_are_ulids() {
    let mut conn = setup();
    let a = create_node(&mut conn, NodeType::Project, "A", None).unwrap();
    let b = create_node(&mut conn, NodeType::Phase, "B", Some(&a.id)).unwrap();
    for id in [&a.id, &b.id, &conn.tables().edges[0].id] {
        assert_eq!(id.len(), 26);
        assert!(id.chars().all(|c| c.is_ascii_digit() || (c.is_ascii_uppercase() && !"ILOU".contains(c))));
    }
    assert_ne!(a.id, b.id);
    assert!(a.created_at.ends_with("+00:00"));
    assert!(conn.tables().edges[0].created_at.ends_with("+00:00"));
    assert_eq!(a.created_at, a.updated_at);
}

#[test]
fn timestamps_are_rfc3339_in_utc() {
    let mut conn = setup();
    let a = create_node(&mut conn, NodeType::Project, "A", None).unwrap();
    let s: Vec<char> = a.created_at.chars().collect();
    let n = s.len();
    assert_eq!(&a.created_at[n - 6..], "+00:00");
    let body = &s[..n - 6];
    let dot = body.iter().position(|c| *c == '.');
    let clock_end = dot.unwrap_or(body.len());
    if let Some(d) = dot {
        let frac = body.len() - d - 1;
        assert!(frac == 3 || frac == 6 || frac == 9);
        assert!(body[d + 1..].iter().all(|c| c.is_ascii_digit()));
    }
    let y = clock_end - 15;
    assert!(body[..y].iter().all(|c| c.is_ascii_digit()));
    assert_eq!(y, 4);
    let clock: String = body[y..clock_end].iter().collect();
    for (i, c) in clock.chars().enumerate() {
        match i {
            0 | 3 => assert_eq!(c, '-'),
            6 => assert_eq!(c, 'T'),
            9 | 12 => assert_eq!(c, ':'),
            _ => assert!(c.is_ascii_digit()),
        }
    }
}

#[test]
fn error_messages_render_like_display() {
    assert_eq!(DbError::Custom("x".to_string()).message(), "x");
    assert_eq!(DbError::Sqlite("boom".to_string()).message(), "sqlite error: boom");
    assert_eq!(DbError::Io("gone".to_string()).message(), "io error: gone");
}

#[test]
fn node_lines_and_detail_text() {
    let mut conn = setup();
    create_node_with(&mut conn, "P", "", "t", NodeType::Project, "Plan", None).unwrap();
    create_node_with(&mut conn, "F", "e1", "t", NodeType::Phase, "Build", Some("P")).unwrap();
    create_node_with(&mut conn, "G", "e2", "t", NodeType::Phase, "Ship", Some("P")).unwrap();
    create_node_with(&mut conn, "Q", "", "t", NodeType::Project, "Other", None).unwrap();
    update_node_with(&mut conn, "F", None, None, Some(NodeStatus::Completed), None, "t", "h").unwrap();
    update_node_with(&mut conn, "P", None, Some("Body"), None, None, "t", "h2").unwrap();
    add_tag_with(&mut conn, "g1", "P", "rust").unwrap();
    add_tag_with(&mut conn, "g2", "P", "ml").unwrap();
    create_edge_with(&mut conn, "b1", "t", "P", "Q", EdgeType::Blocks).unwrap();
    create_edge_with(&mut conn, "r1", "t", "Q", "P", EdgeType::Related).unwrap();

    let p = get_node(&conn, "P").unwrap();
    assert_eq!(node_line(&p), "[project] P — Plan (active)");

    let detail = get_node_detail(&conn, "P").unwrap();
    let expected = "=== Plan ===\n\
Type: project  Status: active  ID: P\n\
Tags: ml, rust\n\
Progress: 1/2\n\
\n\
Body\n\
\n\
--- Children ---\n  \u{2713} [phase] F — Build\n  \u{25cb} [phase] G — Ship\n\
\n\
--- Connections ---\n  \u{2192} blocks Q\n  \u{2194} related to Q\n";
    assert_eq!(render_detail(&detail), expected);

    let q = get_node_detail(&conn, "Q").unwrap();
    assert_eq!(
        render_detail(&q),
        format!(
            "=== Other ===\nType: project  Status: active  ID: Q\n\n{}\n\n--- Connections ---\n  \u{2190} blocked by P\n  \u{2194} related to P\n",
            q.node.description
        )
    );
}

#[test]
fn parent_links_join_allowed_types_with_one_parent_each() {
    let mut conn = setup();
    let p = create_node(&mut conn, NodeType::Project, "P", None).unwrap();
    let f = create_node(&mut conn, NodeType::Phase, "F", Some(&p.id)).unwrap();
    create_node(&mut conn, NodeType::Task, "T1", Some(&f.id)).unwrap();
    create_node(&mut conn, NodeType::Task, "T2", Some(&f.id)).unwrap();
    assert!(create_node(&mut conn, NodeType::Project, "X", Some(&f.id)).is_err());
    assert!(create_node(&mut conn, NodeType::Phase, "Y", Some(&f.id)).is_err());
    let type_of = |id: &str| conn.tables().nodes.iter().find(|n| n.id == id).unwrap().node_type;
    for e in conn.tables().edges.iter().filter(|e| e.edge_type == EdgeType::Parent) {
        assert_eq!(type_of(&e.source_id).child_type(), Some(type_of(&e.target_id)));
        let parents = conn
            .tables()
            .edges
            .iter()
            .filter(|o| o.edge_type == EdgeType::Parent && o.target_id == e.target_id)
            .count();
        assert_eq!(parents, 1);
    }
    assert_eq!(conn.tables().edges.len(), 3);
}
