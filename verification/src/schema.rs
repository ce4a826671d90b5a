//! The schema of the SQLite file that keeps the tables between runs.
use vstd::prelude::*;

verus! {

/// The schema version that `MIGRATION_V1` brings a database to.
pub const SCHEMA_VERSION: i32 = 1;

/// Creates the five tables with their keys, constraints and indexes, and
/// sets the database's `user_version` to 1, in one transaction.
pub const MIGRATION_V1: &'static str = "BEGIN;\n\
            CREATE TABLE IF NOT EXISTS nodes (\n\
                id TEXT PRIMARY KEY,\n\
                type TEXT NOT NULL CHECK(type IN ('project','phase','task')),\n\
                title TEXT NOT NULL,\n\
                description TEXT NOT NULL DEFAULT '',\n\
                status TEXT NOT NULL DEFAULT 'active' CHECK(status IN ('active','completed','archived')),\n\
                sort_order INTEGER NOT NULL DEFAULT 0,\n\
                created_at TEXT NOT NULL,\n\
                updated_at TEXT NOT NULL\n\
            );\n\
\n\
            CREATE TABLE IF NOT EXISTS edges (\n\
                id TEXT PRIMARY KEY,\n\
                source_id TEXT NOT NULL REFERENCES nodes(id) ON DELETE CASCADE,\n\
                target_id TEXT NOT NULL REFERENCES nodes(id) ON DELETE CASCADE,\n\
                edge_type TEXT NOT NULL CHECK(edge_type IN ('parent','blocks','related')),\n\
                created_at TEXT NOT NULL,\n\
                UNIQUE(source_id, target_id, edge_type)\n\
            );\n\
            CREATE INDEX IF NOT EXISTS idx_edges_source ON edges(source_id, edge_type);\n\
            CREATE INDEX IF NOT EXISTS idx_edges_target ON edges(target_id, edge_type);\n\
\n\
            CREATE TABLE IF NOT EXISTS tags (\n\
                id TEXT PRIMARY KEY,\n\
                name TEXT NOT NULL UNIQUE,\n\
                color TEXT NOT NULL DEFAULT '#8ddb9f'\n\
            );\n\
\n\
            CREATE TABLE IF NOT EXISTS node_tags (\n\
                node_id TEXT NOT NULL REFERENCES nodes(id) ON DELETE CASCADE,\n\
                tag_id TEXT NOT NULL REFERENCES tags(id) ON DELETE CASCADE,\n\
                PRIMARY KEY(node_id, tag_id)\n\
            );\n\
\n\
            CREATE TABLE IF NOT EXISTS status_history (\n\
                id TEXT PRIMARY KEY,\n\
                node_id TEXT NOT NULL REFERENCES nodes(id) ON DELETE CASCADE,\n\
                old_status TEXT NOT NULL,\n\
                new_status TEXT NOT NULL,\n\
                changed_at TEXT NOT NULL\n\
            );\n\
\n\
            PRAGMA user_version = 1;\n\
            COMMIT;";

/// A database whose `user_version` is `version` still needs the migration.
pub fn needs_migration(version: i32) -> (r: bool)
    ensures
        r == (version < SCHEMA_VERSION),
{
    version < SCHEMA_VERSION
}

} // verus!
