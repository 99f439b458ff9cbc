//! The persistence schema: applying the DDL to an embedded database
//! creates exactly the four tables, the version marker sticks, and running
//! the DDL twice is harmless.

use firewall_bridge::db::schema_ddl;
use firewall_bridge::schema_version;

fn migrated() -> rusqlite::Connection {
    let conn = rusqlite::Connection::open_in_memory().unwrap();
    conn.execute_batch("PRAGMA journal_mode=WAL; PRAGMA foreign_keys=ON;").unwrap();
    conn.execute_batch(schema_ddl()).unwrap();
    conn.execute_batch(&format!("PRAGMA user_version = {};", schema_version())).unwrap();
    conn
}

#[test]
fn test_open_and_migrate() {
    let conn = migrated();
    let tables: Vec<String> = conn
        .prepare(
            "SELECT name FROM sqlite_master WHERE type='table' AND name NOT LIKE 'sqlite_%' ORDER BY name",
        )
        .unwrap()
        .query_map([], |r| r.get(0))
        .unwrap()
        .collect::<rusqlite::Result<_>>()
        .unwrap();
    assert_eq!(
        tables,
        vec!["config", "firewall_rules", "routing_rules", "rule_groups"]
    );
}

#[test]
fn test_user_version() {
    let conn = migrated();
    let ver: i32 = conn.query_row("PRAGMA user_version", [], |r| r.get(0)).unwrap();
    assert_eq!(ver, schema_version());
}

#[test]
fn test_idempotent_migration() {
    let conn = migrated();
    assert!(conn.execute_batch(schema_ddl()).is_ok());
}

#[test]
fn test_schema_defaults_and_cascade() {
    let conn = migrated();
    conn.execute(
        "INSERT INTO rule_groups (name, created_at, updated_at) VALUES ('g', 0, 0)",
        [],
    )
    .unwrap();
    let (group_type, enabled, priority): (String, i64, i64) = conn
        .query_row(
            "SELECT group_type, enabled, priority FROM rule_groups WHERE name='g'",
            [],
            |r| Ok((r.get(0)?, r.get(1)?, r.get(2)?)),
        )
        .unwrap();
    assert_eq!(group_type, "custom");
    assert_eq!(enabled, 1);
    assert_eq!(priority, 100);

    conn.execute(
        "INSERT INTO firewall_rules (group_id, chain, rule_type, created_at)
         SELECT id, 'input', 'accept', 0 FROM rule_groups WHERE name='g'",
        [],
    )
    .unwrap();
    conn.execute("DELETE FROM rule_groups WHERE name='g'", []).unwrap();
    let left: i64 = conn
        .query_row("SELECT COUNT(*) FROM firewall_rules", [], |r| r.get(0))
        .unwrap();
    assert_eq!(left, 0);
}
