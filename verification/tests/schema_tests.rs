use brain_dump_core::schema::{needs_migration, MIGRATION_V1, SCHEMA_VERSION};
use brain_dump_core::db::{DbError, Store, Tables};
use brain_dump_core::models::{Edge, EdgeType, Node, NodeStatus, NodeType};
use brain_dump_core::queries::{
    add_tag, create_edge, create_node, delete_node, remove_tag, update_node,
};
use rusqlite::Connection;

fn migrate(conn: &Connection) {
    let version: i32 = conn.pragma_query_value(None, "user_version", |row| row.get(0)).unwrap();
    if needs_migration(version) {
        conn.execute_batch(MIGRATION_V1).unwrap();
    }
}

#[test]
fn test_open_db_in_memory() {
    let conn = Connection::open_in_memory().unwrap();
    conn.execute_batch("PRAGMA foreign_keys=ON;").unwrap();
    migrate(&conn);

    let version: i32 = conn.pragma_query_value(None, "user_version", |row| row.get(0)).unwrap();
    assert_eq!(version, 1);

    let tables: Vec<String> = conn
        .prepare("SELECT name FROM sqlite_master WHERE type='table' ORDER BY name")
        .unwrap()
        .query_map([], |row| row.get(0))
        .unwrap()
        .filter_map(|r| r.ok())
        .collect();

    assert!(tables.contains(&"nodes".to_string()));
    assert!(tables.contains(&"edges".to_string()));
    assert!(tables.contains(&"tags".to_string()));
    assert!(tables.contains(&"node_tags".to_string()));
    assert!(tables.contains(&"status_history".to_string()));
}

#[test]
fn test_migration_is_idempotent() {
    let conn = Connection::open_in_memory().unwrap();
    conn.execute_batch("PRAGMA foreign_keys=ON;").unwrap();
    migrate(&conn);
    migrate(&conn); // Should not panic
}

#[test]
fn migration_is_needed_below_the_schema_version_only() {
    assert_eq!(SCHEMA_VERSION, 1);
    assert!(needs_migration(0));
    assert!(needs_migration(-3));
    assert!(!needs_migration(1));
    assert!(!needs_migration(2));
}

#[test]
fn schema_enforces_uniqueness_and_cascades() {
    let conn = Connection::open_in_memory().unwrap();
    conn.execute_batch("PRAGMA foreign_keys=ON;").unwrap();
    migrate(&conn);
    conn.execute_batch(
        "INSERT INTO nodes (id, type, title, created_at, updated_at) VALUES ('a','project','A','t','t');
         INSERT INTO nodes (id, type, title, created_at, updated_at) VALUES ('b','phase','B','t','t');
         INSERT INTO edges (id, source_id, target_id, edge_type, created_at) VALUES ('e','a','b','parent','t');",
    )
    .unwrap();
    let dup = conn.execute_batch(
        "INSERT INTO edges (id, source_id, target_id, edge_type, created_at) VALUES ('f','a','b','parent','t');",
    );
    assert!(dup.is_err());
    conn.execute_batch("DELETE FROM nodes WHERE id = 'a';").unwrap();
    let edges: i32 = conn.query_row("SELECT COUNT(*) FROM edges", [], |r| r.get(0)).unwrap();
    assert_eq!(edges, 0);
}

#[test]
fn rows_after_queries_satisfy_the_schema() {
    let mut store = Store::new();
    let p = create_node(&mut store, NodeType::Project, "P", None).unwrap();
    let f = create_node(&mut store, NodeType::Phase, "F", Some(&p.id)).unwrap();
    let t = create_node(&mut store, NodeType::Task, "T", Some(&f.id)).unwrap();
    let q = create_node(&mut store, NodeType::Project, "Q", None).unwrap();
    create_edge(&mut store, &t.id, &q.id, EdgeType::Blocks).unwrap();
    create_edge(&mut store, &q.id, &p.id, EdgeType::Related).unwrap();
    add_tag(&mut store, &t.id, "rust").unwrap();
    add_tag(&mut store, &q.id, "rust").unwrap();
    add_tag(&mut store, &q.id, "ml").unwrap();
    remove_tag(&mut store, &q.id, "ml").unwrap();
    update_node(&mut store, &t.id, None, None, Some(NodeStatus::Completed), None).unwrap();
    update_node(&mut store, &q.id, None, None, Some(NodeStatus::Archived), None).unwrap();
    delete_node(&mut store, &f.id).unwrap();

    let conn = Connection::open_in_memory().unwrap();
    conn.execute_batch("PRAGMA foreign_keys=ON;").unwrap();
    migrate(&conn);
    for n in &store.tables().nodes {
        conn.execute(
            "INSERT INTO nodes (id, type, title, description, status, sort_order, created_at, updated_at)
             VALUES (?1, ?2, ?3, ?4, ?5, ?6, ?7, ?8)",
            (&n.id, n.node_type.as_str(), &n.title, &n.description, n.status.as_str(), n.sort_order, &n.created_at, &n.updated_at),
        )
        .unwrap();
    }
    for t in &store.tables().tags {
        conn.execute("INSERT INTO tags (id, name, color) VALUES (?1, ?2, ?3)", (&t.id, &t.name, &t.color))
            .unwrap();
    }
    for e in &store.tables().edges {
        conn.execute(
            "INSERT INTO edges (id, source_id, target_id, edge_type, created_at) VALUES (?1, ?2, ?3, ?4, ?5)",
            (&e.id, &e.source_id, &e.target_id, e.edge_type.as_str(), &e.created_at),
        )
        .unwrap();
    }
    for l in &store.tables().node_tags {
        conn.execute("INSERT INTO node_tags (node_id, tag_id) VALUES (?1, ?2)", (&l.node_id, &l.tag_id))
            .unwrap();
    }
    for h in &store.tables().history {
        conn.execute(
            "INSERT INTO status_history (id, node_id, old_status, new_status, changed_at) VALUES (?1, ?2, ?3, ?4, ?5)",
            (&h.id, &h.node_id, &h.old_status, &h.new_status, &h.changed_at),
        )
        .unwrap();
    }
    assert_eq!(store.tables().nodes.len(), 2);
    assert_eq!(store.tables().edges.len(), 1);
    assert_eq!(store.tables().tags.len(), 2);
    assert_eq!(store.tables().node_tags.len(), 1);
    assert_eq!(store.tables().history.len(), 1);
}

#[test]
fn rows_that_meet_the_schema_make_a_store() {
    let mut tables = Tables::new();
    tables.nodes.push(Node {
        id: "a".to_string(),
        node_type: NodeType::Project,
        title: "A".to_string(),
        description: String::new(),
        status: NodeStatus::Active,
        sort_order: 0,
        created_at: "t".to_string(),
        updated_at: "t".to_string(),
    });
    let store = Store::from_tables(tables).unwrap();
    assert_eq!(store.tables().nodes.len(), 1);
    assert_eq!(store.tables().nodes[0].id, "a");
}

#[test]
fn rows_that_break_the_schema_are_refused() {
    let mut tables = Tables::new();
    tables.edges.push(Edge {
        id: "e".to_string(),
        source_id: "missing".to_string(),
        target_id: "also-missing".to_string(),
        edge_type: EdgeType::Related,
        created_at: "t".to_string(),
    });
    match Store::from_tables(tables) {
        Err(DbError::Custom(m)) => assert_eq!(m, "stored rows break the schema's constraints"),
        _ => panic!("expected the rows to be refused"),
    }
}

#[test]
fn duplicate_node_ids_are_refused() {
    let mut tables = Tables::new();
    for _ in 0..2 {
        tables.nodes.push(Node {
            id: "a".to_string(),
            node_type: NodeType::Task,
            title: "A".to_string(),
            description: String::new(),
            status: NodeStatus::Active,
            sort_order: 0,
            created_at: "t".to_string(),
            updated_at: "t".to_string(),
        });
    }
    assert!(Store::from_tables(tables).is_err());
}
