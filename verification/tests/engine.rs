//! The engine's bookkeeping, its files and markers, and the tools' checks.
use mydb::actor::{apply_group, stage_group, WriteRequest};
use mydb::agent::AgentIntent;
use mydb::apply::dirty_databases;
use mydb::bench::{read_sql, row_sql};
use mydb::commands::WriteCommand;
use mydb::database::Database;
use mydb::disk::{page_file_name, DiskManager};
use mydb::dump;
use mydb::dump::{Manifest, TableAction, TableEntry, TableState};
use mydb::manager::StorageEngineManager;
use mydb::page::{Page, PageType};
use mydb::predicate::{Context, Readings, RowPredicate};
use mydb::prepare::prepare_transaction;
use mydb::recovery;
use mydb::recovery::{FolderStep, TableFolders};
use mydb::router;
use mydb::router::{BackendConfig, RouterConfig};
use mydb::row::Row;
use mydb::schema::{
    Column, DataType, Moment, ProcedureDefinition, TableEngine, TableSchema,
};
use mydb::store::Store;
use mydb::update::default_service_name;
use mydb::values::{
    apply_expression_assignments, ExpressionAssignment, NumericOperator, UpdateValueExpression,
};
use mydb::wal::{undecodable_error, WalEntry, WalRecordType};

fn moment() -> Moment {
    Moment { seconds: "2026-01-02 03:04:05".to_string(), nanos: 0 }
}

fn context() -> Context {
    Context { moment: moment(), readings: Readings { entries: Vec::new() } }
}

fn column(name: &str, data_type: DataType, key: bool) -> Column {
    Column {
        name: name.to_string(),
        data_type,
        nullable: !key,
        default: None,
        is_primary_key: key,
    }
}

fn schema(name: &str, create_sql: Option<&str>) -> TableSchema {
    TableSchema {
        name: name.to_string(),
        columns: vec![column("id", DataType::Int, true), column("n", DataType::Int, false)],
        primary_key: Some(vec!["id".to_string()]),
        indexes: Vec::new(),
        next_page_number: 0,
        generation: 0,
        create_sql: create_sql.map(|sql| sql.to_string()),
        engine: TableEngine::Neko233,
        triggers: Vec::new(),
    }
}

fn row(id: &str, n: &str) -> Row {
    let mut row = Row::new();
    row.push("id", id.as_bytes().to_vec());
    row.push("n", n.as_bytes().to_vec());
    row
}

fn table_of_three() -> Database {
    let mut db = Database::new("game");
    assert!(db.create_table(schema("items", None)).is_ok());
    for (id, n) in [("1", "10"), ("2", "20"), ("3", "30")] {
        assert!(db.insert_row("items", row(id, n), &moment()).is_ok());
    }
    db
}

fn execute(store: &mut Store, commands: Vec<WriteCommand>) {
    let pending = vec![WriteRequest { id: 1, commands, prepared: false, last_insert_id: 0 }];
    let staged = stage_group(store, &pending, &context());
    assert!(staged.failed.is_empty());
    for reply in apply_group(store, &staged.staged, 0, &context()) {
        assert!(reply.outcome.is_ok());
    }
}

fn family() -> StorageEngineManager {
    let mut manager = StorageEngineManager::new(16384, "1M");
    execute(&mut manager.store, vec![WriteCommand::CreateDatabase("game".to_string())]);
    let child = "CREATE TABLE child (id INT, n INT, CONSTRAINT fk_n FOREIGN KEY (n) REFERENCES parent (id))";
    for (name, sql) in [("parent", None), ("child", Some(child)), ("alone", None)] {
        let command =
            WriteCommand::CreateTable { database: "game".to_string(), schema: schema(name, sql) };
        execute(&mut manager.store, vec![command]);
    }
    manager
}

#[test]
fn rows_are_updated_and_deleted_in_place() {
    let mut db = table_of_three();
    let second = Some(RowPredicate::Eq("id".to_string(), b"2".to_vec()));
    let sets = vec![("n".to_string(), Some(b"25".to_vec()))];
    assert_eq!(db.update_rows("items", &second, &sets, &context()).unwrap(), 1);
    let rows = db.scan_table("items").unwrap();
    assert_eq!(rows[1].get("n"), Some(b"25".as_slice()));
    assert_eq!(db.delete_rows("items", &second, &context()).unwrap(), 1);
    assert_eq!(db.scan_table("items").unwrap().len(), 2);
    assert_eq!(db.delete_all_rows("items", &moment()).unwrap(), 2);
    assert!(db.scan_table("items").unwrap().is_empty());
    let error = db.delete_all_rows("gone", &moment()).unwrap_err();
    assert_eq!(error.to_string(), "Table 'gone' does not exist");
}

#[test]
fn inserted_rows_are_numbered_before_they_are_stored() {
    let mut db = Database::new("game");
    let sql = "CREATE TABLE items (id INT AUTO_INCREMENT PRIMARY KEY, n INT)";
    assert!(db.create_table(schema("items", Some(sql))).is_ok());
    let mut plain = Row::new();
    plain.push("n", b"7".to_vec());
    let (rows, first) = db.materialize_insert_rows("items", &vec![plain], &moment()).unwrap();
    assert_eq!(first, 1);
    assert_eq!(rows[0].get("id"), Some(b"1".as_slice()));
    assert!(db.scan_table("items").unwrap().is_empty());
}

#[test]
fn stored_pages_hold_the_rows() {
    let db = table_of_three();
    let table = db.table("items").unwrap();
    assert_eq!(table.rows().len(), 3);
    assert_eq!(table.stored_pages().len() as u32, table.schema().next_page_number);
}

#[test]
fn procedures_are_listed() {
    let mut db = Database::new("game");
    for name in ["b", "a"] {
        let procedure = ProcedureDefinition {
            name: name.to_string(),
            parameters: Vec::new(),
            body: "SELECT 1".to_string(),
            definer: "root".to_string(),
            create_sql: "CREATE PROCEDURE".to_string(),
        };
        assert!(db.create_procedure(procedure, &moment()).is_ok());
    }
    let mut names: Vec<String> =
        db.list_procedures().into_iter().map(|procedure| procedure.name).collect();
    names.sort();
    assert_eq!(names, vec!["a".to_string(), "b".to_string()]);
}

#[test]
fn changed_catalogs_are_named_once() {
    let manager = family();
    let delete = |table: &str| WriteCommand::Delete {
        database: "game".to_string(),
        table: table.to_string(),
        filter: None,
    };
    let definition =
        WriteCommand::CreateTable { database: "shop".to_string(), schema: schema("x", None) };
    let commands = vec![delete("alone"), definition, delete("child")];
    assert_eq!(dirty_databases(&manager.store, &commands), vec!["game".to_string()]);
}

#[test]
fn referenced_tables_cannot_be_truncated() {
    let manager = family();
    assert!(manager.validate_truncate_table("game", "child", true).is_ok());
    assert!(manager.validate_truncate_table("game", "parent", false).is_ok());
    assert_eq!(
        manager.validate_truncate_table("game", "parent", true).unwrap_err().to_string(),
        "Cannot truncate a table referenced in a foreign key constraint (`game`.`child`, CONSTRAINT `fk_n`)"
    );
    assert_eq!(
        manager.validate_truncate_table("game", "gone", true).unwrap_err().to_string(),
        "Table 'game.gone' doesn't exist"
    );
    assert_eq!(
        manager.validate_truncate_table("none", "gone", true).unwrap_err().to_string(),
        "Unknown database 'none'"
    );
}

#[test]
fn related_tables_come_with_a_write() {
    let manager = family();
    let insert = |table: &str| {
        vec![WriteCommand::Insert {
            database: "game".to_string(),
            table: table.to_string(),
            row: row("1", "1"),
        }]
    };
    let pair = |a: &str, b: &str| (a.to_string(), b.to_string());
    assert_eq!(
        manager.referential_tables_for_commands(&insert("child")).unwrap(),
        vec![pair("game", "child"), pair("game", "parent")]
    );
    assert!(manager.referential_tables_for_commands(&insert("alone")).unwrap().is_empty());
}

#[test]
fn statistics_count_what_happened() {
    let mut manager = StorageEngineManager::new(16384, "1M");
    manager.stats.record_queued();
    manager.stats.record_queued();
    manager.stats.record_queued();
    manager.stats.record_unqueued();
    manager.stats.record_write_result(true);
    manager.stats.record_write_result(false);
    manager.stats.record_prepared(false);
    manager.stats.record_group(3);
    manager.stats.record_times(1, 2, 4);
    manager.stats.record_checkpoint(true, 8);
    manager.stats.record_checkpoint(false, 8);
    let stats = manager.stats(60);
    assert_eq!(stats.uptime_seconds, 60);
    assert_eq!((stats.actor_queue_depth, stats.writes, stats.errors), (1, 1, 2));
    assert_eq!((stats.group_commits, stats.grouped_requests), (1, 3));
    assert_eq!(
        (stats.prepare_validation_micros, stats.wal_sync_micros, stats.apply_micros),
        (1, 2, 4)
    );
    assert_eq!((stats.checkpoints, stats.checkpoint_errors, stats.checkpoint_micros), (1, 1, 16));
}

#[test]
fn temporary_tables_do_not_outlive_a_restart() {
    let mut manager = family();
    let left = WriteCommand::CreateTable {
        database: "game".to_string(),
        schema: schema("__mydb_tmp_1", None),
    };
    execute(&mut manager.store, vec![left]);
    let (removed, outcome) = manager.cleanup_stale_temporary_tables();
    assert!(outcome.is_ok());
    assert_eq!(removed, 1);
    assert!(manager.get_database("game").unwrap().get_table("__mydb_tmp_1").is_none());
    assert!(manager.get_database("game").unwrap().get_table("alone").is_some());
}

#[test]
fn transactions_are_prepared_without_being_stored() {
    let mut manager = family();
    let commands = vec![WriteCommand::Insert {
        database: "game".to_string(),
        table: "alone".to_string(),
        row: row("1", "1"),
    }];
    let batch = prepare_transaction(&mut manager.store, &commands, 0, &context()).unwrap();
    assert_eq!(batch.commands.len(), 1);
    assert_eq!(batch.last_insert_id, 0);
    assert!(manager.scan_table("game", "alone").unwrap().is_empty());
    let orphan = vec![WriteCommand::Insert {
        database: "game".to_string(),
        table: "child".to_string(),
        row: row("1", "9"),
    }];
    assert!(prepare_transaction(&mut manager.store, &orphan, 0, &context()).is_err());
}

#[test]
fn refused_requests_change_no_rows() {
    let mut store = Store::new();
    execute(&mut store, vec![WriteCommand::CreateDatabase("game".to_string())]);
    let sql = "CREATE TABLE items (id INT AUTO_INCREMENT PRIMARY KEY, n INT)";
    let table = schema("items", Some(sql));
    execute(
        &mut store,
        vec![WriteCommand::CreateTable { database: "game".to_string(), schema: table }],
    );
    let numbered = |n: &str| {
        let mut row = Row::new();
        row.push("n", n.as_bytes().to_vec());
        WriteCommand::Insert { database: "game".to_string(), table: "items".to_string(), row }
    };
    execute(&mut store, vec![numbered("10")]);
    let twice = WriteCommand::Insert {
        database: "game".to_string(),
        table: "items".to_string(),
        row: row("1", "30"),
    };
    let pending = vec![WriteRequest {
        id: 7,
        commands: vec![numbered("20"), twice],
        prepared: false,
        last_insert_id: 0,
    }];
    let staged = stage_group(&mut store, &pending, &context());
    assert!(staged.staged.is_empty() && staged.rest.is_empty());
    assert_eq!(staged.failed, vec![(7, "Duplicate entry for key 'PRIMARY'".to_string())]);
    let rows = store.database("game").unwrap().scan_table("items").unwrap();
    assert_eq!(rows.len(), 1);
    execute(&mut store, vec![numbered("40")]);
    let rows = store.database("game").unwrap().scan_table("items").unwrap();
    assert_eq!(rows[1].get("id"), Some(b"3".as_slice()));
}

#[test]
fn checksums_depend_on_the_data() {
    let mut page = Page::new(1, PageType::Data, 64);
    let before = page.calculate_checksum();
    assert_eq!(before.len(), 32);
    page.data[0] = 1;
    assert_ne!(before, page.calculate_checksum());
}

#[test]
fn pages_have_places_in_a_segment() {
    let disk = DiskManager::new("/data".to_string(), 16384);
    assert!(disk.is_usable());
    assert!(!DiskManager::new("/data".to_string(), usize::MAX).is_usable());
    let record = 16384 + 25 + 32;
    assert_eq!(disk.page_place("t", 1, 2 * record).unwrap(), Some(record));
    assert_eq!(disk.page_place("t", 2, 2 * record).unwrap(), None);
    assert_eq!(
        disk.page_place("t", 0, record + 1).unwrap_err().to_string(),
        "Page segment for table 't' is truncated"
    );
    let (place, zeros) = disk.delete_page(3);
    assert_eq!(place, 3 * record);
    assert_eq!(zeros, vec![0_u8; record as usize]);
    assert_eq!(disk.read_page("t", 3, &zeros).unwrap().is_none(), true);
}

#[test]
fn page_files_are_found_by_name() {
    let disk = DiskManager::new("/data".to_string(), 16384);
    assert_eq!(page_file_name(7), "page_00000007.bin");
    let names = ["page_00000010.bin", "page_00000002.bin", "page_x.bin", "pages.dat"];
    let names: Vec<String> = names.iter().map(|name| name.to_string()).collect();
    assert_eq!(disk.list_page_files(&names), vec![2, 10]);
}

#[test]
fn markers_are_told_by_their_names() {
    assert!(recovery::is_rewrite_marker_name(".rewrite-6974656d73.json"));
    assert!(!recovery::is_rewrite_marker_name(".drop-6974656d73.json"));
    assert!(recovery::is_drop_marker_name(".drop-6974656d73.json"));
    assert!(!recovery::is_drop_marker_name("drop.json"));
}

#[test]
fn finished_rewrites_and_drops_leave_nothing() {
    let all = TableFolders { active: true, staging: true, backup: true };
    let none = TableFolders { active: true, staging: false, backup: false };
    assert_eq!(recovery::rewrite_table_steps(false), vec![
        FolderStep::WriteStaging,
        FolderStep::Promote
    ]);
    assert_eq!(recovery::rewrite_table_steps(true), vec![
        FolderStep::WriteStaging,
        FolderStep::MoveAside,
        FolderStep::Promote
    ]);
    assert_eq!(
        recovery::finalize_table_rewrite(true, all),
        Some(vec![FolderStep::RemoveBackup, FolderStep::RemoveStaging])
    );
    assert_eq!(recovery::finalize_table_rewrite(true, none), Some(Vec::new()));
    assert_eq!(recovery::finalize_table_rewrite(false, all), None);
    assert_eq!(recovery::finalize_table_drop(false, all), Some(vec![FolderStep::RemoveBackup]));
    assert_eq!(recovery::finalize_table_drop(true, all), None);
}

#[test]
fn expressions_are_assigned_in_order() {
    let table = schema("items", None);
    let mut target = row("1", "10");
    let assignments = vec![
        ExpressionAssignment {
            target_column: "n".to_string(),
            value: UpdateValueExpression::Numeric {
                source_column: "n".to_string(),
                operator: NumericOperator::Multiply,
                operand: b"3".to_vec(),
            },
        },
        ExpressionAssignment {
            target_column: "id".to_string(),
            value: UpdateValueExpression::Column("n".to_string()),
        },
    ];
    assert!(apply_expression_assignments(&mut target, &table, &assignments).is_ok());
    assert_eq!(target.get("n"), Some(b"30".as_slice()));
    assert_eq!(target.get("id"), Some(b"30".as_slice()));
}

#[test]
fn undecodable_records_are_named() {
    let group = WalEntry { lsn: 4, record_type: WalRecordType::GroupCommit, tx_id: 4 };
    let batch = WalEntry { lsn: 5, record_type: WalRecordType::Batch, tx_id: 9 };
    assert_eq!(
        undecodable_error(group, "torn").to_string(),
        "cannot decode WAL group 4: torn"
    );
    assert_eq!(
        undecodable_error(batch, "torn").to_string(),
        "cannot decode WAL transaction 9: torn"
    );
}

#[test]
fn routers_have_defaults() {
    let backend = BackendConfig { host: "db".to_string(), port: 3306, weight: 1 };
    let config = RouterConfig::with_backends(vec![backend]);
    assert!(config.validate().is_ok());
    assert_eq!(router::listen_address(&config), "0.0.0.0:13306");
    assert_eq!((config.connect_timeout_ms, config.max_connections), (2_000, 4_096));
    assert_eq!(
        router::unavailable("refused").to_string(),
        "all MySQL backends unavailable: refused"
    );
}

#[test]
fn questions_lead_to_an_endpoint() {
    assert_eq!(AgentIntent::SlowQueries.recommended_endpoint(), "/api/v1/agent/slow-queries");
    assert_eq!(AgentIntent::SqlOptimization.recommended_endpoint(), "/api/v1/agent/sql");
    assert_eq!(AgentIntent::Connections.recommended_endpoint(), "/api/v1/connections");
    assert_eq!(AgentIntent::Storage.recommended_endpoint(), "/api/v1/storage/inventory");
    assert_eq!(AgentIntent::Backup.recommended_endpoint(), "/api/v1/backup/list");
    assert_eq!(AgentIntent::Locks.recommended_endpoint(), "/api/v1/agent/health");
}

#[test]
fn benchmark_statements_take_parameters() {
    assert_eq!(
        row_sql("t", false),
        "INSERT INTO `t`(actor_id,seq,payload) VALUES (?,?,?)"
    );
    assert_eq!(
        row_sql("t", true),
        "INSERT INTO `t`(actor_id,seq,payload) VALUES (?,?,?) ON DUPLICATE KEY UPDATE payload=VALUES(payload)"
    );
    assert_eq!(read_sql("t"), "SELECT payload FROM `t` WHERE actor_id=? LIMIT 1");
}

#[test]
fn services_are_named_by_platform() {
    assert_eq!(default_service_name(true), "MyDBServer");
    assert_eq!(default_service_name(false), "mydb");
}

fn manifest(database: &str) -> Manifest {
    Manifest {
        format_version: dump::FORMAT_VERSION,
        tool: "mydbdump 1".to_string(),
        kind: dump::BackupKind::Full,
        database: database.to_string(),
        created_at: String::new(),
        duration_ms: 0,
        consistent_snapshot: true,
        table_locks: false,
        incremental_strategy: String::new(),
        parent_manifest: None,
        parent_state: Vec::new(),
        tables: Vec::new(),
        dropped_tables: Vec::new(),
    }
}

#[test]
fn backups_belong_to_one_database() {
    let manifest = manifest("game");
    assert!(dump::check_base(&manifest, "game").is_ok());
    assert_eq!(
        dump::check_base(&manifest, "shop").unwrap_err().to_string(),
        "incremental base belongs to database `game`"
    );
    assert!(dump::check_database(&manifest, "game").is_ok());
    assert_eq!(
        dump::check_database(&manifest, "shop").unwrap_err().to_string(),
        "backup database `game` does not match target `shop`"
    );
}

#[test]
fn increments_need_their_parent() {
    let state =
        TableState { name: "t".to_string(), rows: 2, content_checksum: "ab".to_string() };
    let present = vec!["s".to_string(), "t".to_string()];
    assert!(dump::check_parent_table(&state, &present).is_ok());
    assert_eq!(
        dump::check_parent_table(&state, &Vec::new()).unwrap_err().to_string(),
        "incremental base mismatch: table `t` is missing"
    );
    assert!(dump::check_parent_content(&state, 2, "ab").is_ok());
    assert_eq!(
        dump::check_parent_content(&state, 3, "ab").unwrap_err().to_string(),
        "incremental base mismatch for `t`: expected 2 rows and checksum ab"
    );
    assert!(dump::check_parent_content(&state, 2, "cd").is_err());
    assert!(dump::check_parent_known(&vec![state]).is_ok());
    assert_eq!(
        dump::check_parent_known(&Vec::new()).unwrap_err().to_string(),
        "incremental backup has no parent state; use --skip-chain-check only after manual verification"
    );
}

#[test]
fn replacing_a_table_can_be_refused() {
    let entry = TableEntry {
        name: "t".to_string(),
        ddl: String::new(),
        ddl_checksum: String::new(),
        rows: 0,
        content_checksum: String::new(),
        action: TableAction::Replace,
        data_file: None,
        data_file_checksum: None,
        uncompressed_bytes: 0,
        compressed_bytes: 0,
    };
    assert_eq!(
        dump::refusal(&entry).to_string(),
        "table replacement disabled but `t` changed"
    );
}
