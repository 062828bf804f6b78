//! The write-ahead log: framing, replay, group commit and crash recovery.
use mydb::actor::{
    all_succeeded, apply_group, group_has_room, is_memory_group, stage_group, unlogged_replies,
    validate_insert_commands_incremental, ActorCheckpointState, WriteRequest,
};
use mydb::batch::apply_write_batch;
use mydb::commands::WriteCommand;
use mydb::database::{legacy_metadata, Database};
use mydb::error::DbResult;
use mydb::index::{add_rows_to_value_index, indexed_columns, Places};
use mydb::manager::{current_lsn, StorageEngineManager, StorageStats};
use mydb::predicate::{Context, Readings, RowPredicate};
use mydb::recovery::{
    drop_marker, recover_schema_snapshot, recover_table_drop, recover_table_rewrite,
    rewrite_marker, validate_drop_marker, validate_rewrite_marker, write_schema_snapshot,
    FolderStep, SnapshotFiles, SnapshotStep, TableFolders,
};
use mydb::replay::checkpoint_tables;
use mydb::row::Row;
use mydb::schema::{
    Column, DataType, Moment, ProcedureDefinition, ProcedureMetadata, ProcedureParameter,
    ProcedureParameterMode, TableEngine, TableSchema,
};
use mydb::store::Store;
use mydb::wal::{
    decode_json_batch, decode_wal_batch, decode_wal_group, entries_to_replay, flatten_group,
    frame_wal_batch, frame_wal_group, open_wal_batch, open_wal_group, wal_group_commit_unix_ms,
    wal_replay, BatchPayload, GroupPayload, LegacyTableSchema, LegacyWalBatch, LegacyWalGroup,
    LegacyWriteCommand, WalBatch, WalEntry, WalGroup, WalRecordType,
};

fn context() -> Context {
    Context {
        moment: Moment { seconds: "2026-01-02 03:04:05".to_string(), nanos: 0 },
        readings: Readings { entries: Vec::new() },
    }
}

fn recovery_schema(name: &str) -> TableSchema {
    TableSchema {
        name: name.to_string(),
        columns: vec![
            Column {
                name: "id".into(),
                data_type: DataType::BigInt,
                nullable: false,
                default: None,
                is_primary_key: true,
            },
            Column {
                name: "value".into(),
                data_type: DataType::Varchar(64),
                nullable: true,
                default: None,
                is_primary_key: false,
            },
        ],
        primary_key: Some(vec!["id".into()]),
        indexes: Vec::new(),
        triggers: Vec::new(),
        next_page_number: 0,
        generation: 0,
        create_sql: None,
        engine: TableEngine::Neko233,
    }
}

fn recovery_store() -> Store {
    let mut store = Store::new();
    run(&mut store, vec![WriteCommand::CreateDatabase("game".into())]);
    for table in ["a", "b"] {
        run(
            &mut store,
            vec![WriteCommand::CreateTable { database: "game".into(), schema: recovery_schema(table) }],
        );
    }
    store
}

fn request(id: u64, commands: Vec<WriteCommand>) -> WriteRequest {
    WriteRequest { id, commands, prepared: false, last_insert_id: 0 }
}

fn run(store: &mut Store, commands: Vec<WriteCommand>) {
    let staged = stage_group(store, &vec![request(1, commands)], &context());
    assert!(staged.failed.is_empty(), "{:?}", staged.failed);
    let replies = apply_group(store, &staged.staged, 0, &context());
    assert!(all_succeeded(&replies), "{replies:?}");
}

fn insert_command(table: &str, id: &str) -> WriteCommand {
    let mut row = Row::new();
    row.push("id", id.as_bytes().to_vec());
    WriteCommand::Insert { database: "game".into(), table: table.into(), row }
}

fn update_command(table: &str, id: &str, value: &str) -> WriteCommand {
    WriteCommand::Update {
        database: "game".into(),
        table: table.into(),
        filter: Some(RowPredicate::Eq("id".into(), id.as_bytes().to_vec())),
        assignments: vec![("value".into(), Some(value.as_bytes().to_vec()))],
    }
}

fn scan(store: &Store, table: &str) -> Vec<Row> {
    store.database("game").unwrap().scan_table(table).unwrap()
}

fn replay(store: &mut Store, batches: Vec<Vec<WriteCommand>>) -> usize {
    let (done, outcome) = wal_replay(store, &batches, &context());
    outcome.unwrap();
    done
}

#[test]
fn committed_batch_is_redone_once_and_marked_applied() {
    let log = vec![
        WalEntry { lsn: 1, record_type: WalRecordType::Batch, tx_id: 1 },
        WalEntry { lsn: 2, record_type: WalRecordType::Commit, tx_id: 1 },
    ];
    assert_eq!(entries_to_replay(&log), vec![0]);
    let mut applied = log.clone();
    applied.push(WalEntry { lsn: 3, record_type: WalRecordType::Applied, tx_id: 1 });
    assert!(entries_to_replay(&applied).is_empty());

    let mut store = recovery_store();
    assert_eq!(replay(&mut store, vec![vec![insert_command("a", "1")]]), 1);
    assert_eq!(replay(&mut store, vec![vec![insert_command("a", "1")]]), 1);
    let rows = scan(&store, "a");
    assert_eq!(rows.len(), 1);
    assert_eq!(rows[0].get("id"), Some(b"1".as_slice()));
}

#[test]
fn atomic_group_commit_is_redone_once_and_marked_applied() {
    let log = vec![WalEntry { lsn: 1, record_type: WalRecordType::GroupCommit, tx_id: 1 }];
    assert_eq!(entries_to_replay(&log), vec![0]);
    let group = vec![vec![insert_command("a", "1")], vec![insert_command("b", "2")]];
    let mut store = recovery_store();
    replay(&mut store, vec![flatten_group(&group)]);
    replay(&mut store, vec![flatten_group(&group)]);
    assert_eq!(scan(&store, "a").len(), 1);
    assert_eq!(scan(&store, "b").len(), 1);
}

#[test]
fn batch_without_commit_is_ignored() {
    let log = vec![WalEntry { lsn: 1, record_type: WalRecordType::Batch, tx_id: 1 }];
    assert!(entries_to_replay(&log).is_empty());
}

#[test]
fn replay_checkpoints_multiple_rewrites_of_one_table_once() {
    let mut store = recovery_store();
    replay(&mut store, vec![vec![insert_command("a", "1")]]);
    let group = vec![update_command("a", "1", "first"), update_command("a", "1", "second")];
    replay(&mut store, vec![group]);
    let rows = scan(&store, "a");
    assert_eq!(rows.len(), 1);
    assert_eq!(rows[0].get("value"), Some(b"second".as_slice()));
}

#[test]
fn replace_rows_wal_replay_is_idempotent_for_keyless_limit_fallback() {
    let mut store = recovery_store();
    replay(&mut store, vec![vec![insert_command("a", "1")]]);
    let replacement = || {
        let mut row = Row::new();
        row.push("id", b"2".to_vec());
        row.push("value", b"replacement".to_vec());
        vec![WriteCommand::ReplaceRows {
            database: "game".into(),
            table: "a".into(),
            rows: vec![row],
            affected_rows: 1,
        }]
    };
    replay(&mut store, vec![replacement()]);
    replay(&mut store, vec![replacement()]);
    let rows = scan(&store, "a");
    assert_eq!(rows.len(), 1);
    assert_eq!(rows[0].get("id"), Some(b"2".as_slice()));
    assert_eq!(rows[0].get("value"), Some(b"replacement".as_slice()));
}

#[test]
fn incremental_insert_validation_rejects_cross_request_duplicates() {
    let store = recovery_store();
    let mut group_keys = Vec::new();
    let first = vec![insert_command("a", "1")];
    validate_insert_commands_incremental(&first, &store, &mut group_keys).unwrap();
    let duplicate = vec![insert_command("a", "1")];
    assert!(validate_insert_commands_incremental(&duplicate, &store, &mut group_keys).is_err());
    let independent = vec![insert_command("a", "2")];
    validate_insert_commands_incremental(&independent, &store, &mut group_keys).unwrap();
}

#[test]
fn actor_groups_distinct_table_insert_commits() {
    let mut store = recovery_store();
    let pending = vec![
        request(1, vec![insert_command("a", "1")]),
        request(2, vec![insert_command("b", "2")]),
    ];
    let staged = stage_group(&mut store, &pending, &context());
    assert_eq!(staged.staged.len(), 2);
    assert!(staged.rest.is_empty() && staged.failed.is_empty());
    assert!(all_succeeded(&apply_group(&mut store, &staged.staged, 0, &context())));
    assert_eq!(scan(&store, "a").len(), 1);
    assert_eq!(scan(&store, "b").len(), 1);
}

#[test]
fn actor_groups_distinct_table_update_commits() {
    let mut store = recovery_store();
    run(&mut store, vec![insert_command("a", "1")]);
    run(&mut store, vec![insert_command("b", "2")]);
    let pending = vec![
        request(1, vec![update_command("a", "1", "left")]),
        request(2, vec![update_command("b", "2", "right")]),
    ];
    let staged = stage_group(&mut store, &pending, &context());
    assert_eq!(staged.staged.len(), 2);
    apply_group(&mut store, &staged.staged, 0, &context());
    assert_eq!(scan(&store, "a")[0].get("value"), Some(b"left".as_slice()));
    assert_eq!(scan(&store, "b")[0].get("value"), Some(b"right".as_slice()));
}

#[test]
fn actor_groups_distinct_table_upsert_commits() {
    let mut store = recovery_store();
    run(&mut store, vec![insert_command("a", "1")]);
    run(&mut store, vec![insert_command("b", "2")]);
    let upsert = |table: &str, id: &[u8], value: &[u8]| {
        let mut row = Row::new();
        row.push("id", id.to_vec());
        row.push("value", value.to_vec());
        WriteCommand::Upsert {
            database: "game".into(),
            table: table.into(),
            row,
            update_columns: vec!["value".into()],
            ignore: false,
        }
    };
    let pending = vec![
        request(1, vec![upsert("a", b"1", b"left")]),
        request(2, vec![upsert("b", b"2", b"right")]),
    ];
    let staged = stage_group(&mut store, &pending, &context());
    assert_eq!(staged.staged.len(), 2);
    apply_group(&mut store, &staged.staged, 0, &context());
    assert_eq!(scan(&store, "a")[0].get("value"), Some(b"left".as_slice()));
    assert_eq!(scan(&store, "b")[0].get("value"), Some(b"right".as_slice()));
}

#[test]
fn a_failed_request_does_not_hold_up_the_others() {
    let mut store = recovery_store();
    let pending = vec![
        request(1, vec![insert_command("a", "1")]),
        request(2, vec![insert_command("a", "1")]),
        request(3, vec![insert_command("nowhere", "1")]),
    ];
    let staged = stage_group(&mut store, &pending, &context());
    assert!(!staged.staged.is_empty() || !staged.failed.is_empty());
    let handled = staged.staged.len() + staged.failed.len() + staged.rest.len();
    assert_eq!(handled, 3);
    let replies = unlogged_replies(&staged.staged, "no room");
    assert!(!all_succeeded(&replies));
    assert!(group_has_room(0, false));
    assert!(!group_has_room(0, true));
}

#[test]
fn redo_never_resurrects_memory_table_rows() {
    let mut store = recovery_store();
    let mut schema = recovery_schema("volatile_state");
    schema.engine = TableEngine::Memory;
    schema.create_sql = Some(
        "CREATE TABLE volatile_state (id BIGINT PRIMARY KEY, value VARCHAR(64)) ENGINE=MEMORY".into(),
    );
    run(&mut store, vec![WriteCommand::CreateTable { database: "game".into(), schema }]);
    let staged = vec![request(1, vec![insert_command("volatile_state", "1")])];
    assert!(is_memory_group(&staged, &store));
    replay(&mut store, vec![vec![insert_command("volatile_state", "1")]]);
    assert!(scan(&store, "volatile_state").is_empty());
}

#[test]
fn redo_skips_old_dml_for_a_later_durably_dropped_database() {
    let mut store = recovery_store();
    store.remove_database("game");
    replay(&mut store, vec![vec![insert_command("a", "1")]]);
    assert!(store.database("game").is_none());
}

#[test]
fn actor_updates_stay_in_wal_backed_memtable_until_checkpoint() {
    let mut manager = StorageEngineManager::new(16384, "4M");
    manager.store = recovery_store();
    run(&mut manager.store, vec![insert_command("a", "1")]);
    run(&mut manager.store, vec![update_command("a", "1", "latest")]);
    assert_eq!(manager.get_database("game").unwrap().get_table("a").unwrap().generation, 0);
    assert_eq!(scan(&manager.store, "a")[0].get("value"), Some(b"latest".as_slice()));
    manager.flush(&context().moment).unwrap();
    assert_eq!(manager.get_database("game").unwrap().get_table("a").unwrap().generation, 1);
    assert_eq!(scan(&manager.store, "a")[0].get("value"), Some(b"latest".as_slice()));
}

#[test]
fn checkpoints_come_due_after_enough_groups() {
    let mut state = ActorCheckpointState::new();
    let staged = vec![request(1, vec![insert_command("a", "1")])];
    let mut due_after = 0;
    for group in 1..=10_000u64 {
        if state.record_group(&staged, group, true) {
            due_after = group;
            break;
        }
    }
    assert!(due_after > 1);
    assert_eq!(state.tables, vec![("game".to_string(), "a".to_string())]);
    let mut store = recovery_store();
    state.checkpoint(&mut store, &context()).unwrap();
    state.clear();
    assert!(state.transactions.is_empty());
}

#[test]
fn partially_applied_multi_table_batch_recovers_without_duplicates() {
    let mut store = recovery_store();
    let commands = vec![insert_command("a", "1"), insert_command("b", "2")];
    apply_write_batch(&mut store, &vec![insert_command("a", "1")], false, true, 0, &context()).unwrap();
    replay(&mut store, vec![commands]);
    assert_eq!(scan(&store, "a").len(), 1);
    assert_eq!(scan(&store, "b").len(), 1);
}

#[test]
fn replay_skips_older_insert_when_same_primary_key_has_newer_values() {
    let mut store = recovery_store();
    let command = || {
        let mut row = Row::new();
        row.push("id", b"1".to_vec());
        row.push("value", b"old".to_vec());
        WriteCommand::Insert { database: "game".into(), table: "a".into(), row }
    };
    apply_write_batch(&mut store, &vec![command()], false, true, 0, &context()).unwrap();
    run(&mut store, vec![update_command("a", "1", "new")]);
    replay(&mut store, vec![vec![command()]]);
    let rows = scan(&store, "a");
    assert_eq!(rows.len(), 1);
    assert_eq!(rows[0].get("value"), Some(b"new".as_slice()));
}

fn procedure(name: &str) -> ProcedureDefinition {
    ProcedureDefinition {
        name: name.into(),
        parameters: vec![ProcedureParameter {
            name: "p_amount".into(),
            mode: ProcedureParameterMode::In,
            data_type: "BIGINT".into(),
        }],
        body: "BEGIN SET @coins=p_amount; END".into(),
        definer: "root@localhost".into(),
        create_sql: "CREATE PROCEDURE grant_coins(IN p_amount BIGINT) BEGIN SET @coins=p_amount; END".into(),
    }
}

#[test]
fn procedure_catalog_is_wal_backed_and_persistent() {
    let mut store = recovery_store();
    run(
        &mut store,
        vec![WriteCommand::CreateProcedure { database: "game".into(), procedure: procedure("grant_coins") }],
    );
    let found = store.database("game").unwrap().get_procedure("GRANT_COINS").unwrap();
    assert_eq!(found.parameters[0].name, "p_amount");
    run(
        &mut store,
        vec![WriteCommand::AlterProcedure {
            database: "game".into(),
            procedure: "grant_coins".into(),
            create_sql: "CREATE PROCEDURE grant_coins(IN p_amount BIGINT) COMMENT 'altered' BEGIN SET @coins=p_amount; END".into(),
        }],
    );
    let found = store.database("game").unwrap().get_procedure("grant_coins").unwrap();
    assert!(found.create_sql.contains("COMMENT 'altered'"));
    run(
        &mut store,
        vec![WriteCommand::DropProcedure { database: "game".into(), procedure: "grant_coins".into() }],
    );
    assert!(store.database("game").unwrap().get_procedure("grant_coins").is_none());
}

#[test]
fn procedure_v2_metadata_persists_and_legacy_catalog_upgrades() {
    let procedures = vec![("old_routine".to_string(), procedure("old_routine"))];
    let metadata = legacy_metadata(&procedures, "2026-01-01 00:00:00");
    let mut legacy = Database::new("legacy");
    legacy.load_procedures(procedures, metadata);
    let known = legacy.get_procedure_metadata("OLD_ROUTINE").unwrap();
    assert!(!known.created.is_empty());
    assert_eq!(known.created, known.last_altered);
    assert!(known.sql_mode.is_empty());

    let mut store = recovery_store();
    let created = ProcedureMetadata::new("STRICT_TRANS_TABLES".into());
    let altered = created.altered("ANSI_QUOTES".into());
    run(
        &mut store,
        vec![WriteCommand::CreateProcedureV2 {
            database: "game".into(),
            procedure: procedure("mode_routine"),
            metadata: created.clone(),
        }],
    );
    run(
        &mut store,
        vec![WriteCommand::AlterProcedureV2 {
            database: "game".into(),
            procedure: "mode_routine".into(),
            create_sql: "CREATE PROCEDURE mode_routine() COMMENT 'v2' BEGIN END".into(),
            metadata: altered.clone(),
        }],
    );
    assert_eq!(
        store.database("game").unwrap().get_procedure_metadata("MODE_ROUTINE"),
        Some(altered)
    );
}

#[test]
fn wal_batch_binary_codec_reads_legacy_json() {
    let decoded: DbResult<Vec<WriteCommand>> =
        decode_json_batch(Ok(WalBatch { version: 1, commands: vec![insert_command("a", "7")] }));
    assert_eq!(decoded.unwrap().len(), 1);
    assert!(matches!(open_wal_batch(b"{\"version\":1}"), BatchPayload::Json(_)));

    let current = frame_wal_batch(b"encoded");
    match open_wal_batch(&current) {
        BatchPayload::Binary(bytes) => assert_eq!(bytes, b"encoded"),
        other => panic!("unexpected {other:?}"),
    }
    let decoded = decode_wal_batch(
        Ok(WalBatch { version: 2, commands: vec![insert_command("a", "8")] }),
        Err("not tried".into()),
    );
    assert_eq!(decoded.unwrap().len(), 1);
    let newer = decode_wal_batch(
        Ok(WalBatch { version: 9, commands: vec![] }),
        Err("not tried".into()),
    );
    assert!(newer.is_err());
}

#[test]
fn table_schema_reads_legacy_bincode_without_trigger_field() {
    let legacy_table = |name: &str| LegacyTableSchema {
        name: name.into(),
        columns: Vec::new(),
        primary_key: Some(vec!["id".into()]),
        indexes: Vec::new(),
        next_page_number: 0,
        generation: 0,
        create_sql: Some("CREATE TABLE legacy(id BIGINT PRIMARY KEY)".into()),
        engine: TableEngine::Neko233,
    };
    let batch = LegacyWalBatch {
        version: 2,
        commands: vec![LegacyWriteCommand::CreateTable {
            database: "game".into(),
            schema: legacy_table("legacy"),
        }],
    };
    let decoded = decode_wal_batch(Err("unexpected end".into()), Ok(batch)).unwrap();
    let WriteCommand::CreateTable { schema, .. } = &decoded[0] else {
        panic!("expected legacy CREATE TABLE")
    };
    assert_eq!(schema.name, "legacy");
    assert!(schema.triggers.is_empty());

    let group = LegacyWalGroup {
        version: 2,
        committed_unix_ms: Some(7),
        transactions: vec![vec![LegacyWriteCommand::CreateTable {
            database: "game".into(),
            schema: legacy_table("legacy_group"),
        }]],
    };
    let decoded = decode_wal_group(true, Err("unexpected end".into()), Ok(group)).unwrap();
    let WriteCommand::CreateTable { schema, .. } = &decoded.transactions[0][0] else {
        panic!("expected legacy grouped CREATE TABLE")
    };
    assert_eq!(schema.name, "legacy_group");
    assert!(schema.triggers.is_empty());
}

#[test]
fn wal_group_v2_timestamp_keeps_v1_read_compatibility() {
    let legacy = WalGroup {
        version: 1,
        committed_unix_ms: None,
        transactions: vec![vec![insert_command("a", "1")]],
    };
    let decoded = decode_wal_group(false, Ok(legacy), Err("not tried".into())).unwrap();
    assert_eq!(decoded.transactions.len(), 1);
    assert_eq!(decoded.committed_unix_ms, None);

    let framed = frame_wal_group(b"encoded");
    match open_wal_group(&framed).unwrap() {
        GroupPayload::Timed(bytes) => assert_eq!(bytes, b"encoded"),
        other => panic!("unexpected {other:?}"),
    }
    assert!(open_wal_group(b"nothing of the kind").is_err());
    let timed = WalGroup {
        version: 2,
        committed_unix_ms: Some(5),
        transactions: vec![vec![insert_command("a", "2")]],
    };
    let decoded = decode_wal_group(true, Ok(timed), Err("not tried".into()));
    assert!(decoded.as_ref().unwrap().committed_unix_ms.is_some());
    assert_eq!(wal_group_commit_unix_ms(WalRecordType::GroupCommit, &decoded), Some(5));
    assert_eq!(wal_group_commit_unix_ms(WalRecordType::Batch, &decoded), None);
}

#[test]
fn log_numbers_start_at_one() {
    assert_eq!(current_lsn(1), 0);
    assert_eq!(current_lsn(8), 7);
}

#[test]
fn test_copy_on_write_rewrite_rolls_back_or_commits_at_schema_boundary() {
    let after_crash = TableFolders { active: true, staging: false, backup: true };
    assert_eq!(
        recover_table_rewrite("players", false, after_crash).unwrap(),
        vec![FolderStep::RemoveActive, FolderStep::Restore]
    );
    assert_eq!(
        recover_table_rewrite("players", true, after_crash).unwrap(),
        vec![FolderStep::RemoveBackup]
    );
    let empty = TableFolders { active: false, staging: false, backup: false };
    assert!(recover_table_rewrite("players", true, empty).is_err());
    let (marker, file) = rewrite_marker("players", 3, 5, 1).unwrap();
    assert_eq!(file, ".rewrite-706c6179657273.json");
    assert!(validate_rewrite_marker(&marker).is_ok());
}

#[test]
fn test_copy_on_write_drop_rolls_back_or_commits_at_schema_boundary() {
    let dropped = TableFolders { active: false, staging: false, backup: true };
    assert_eq!(recover_table_drop(true, dropped), vec![FolderStep::Restore]);
    assert_eq!(recover_table_drop(false, dropped), vec![FolderStep::RemoveBackup]);
    let (marker, _) = drop_marker("players").unwrap();
    assert!(validate_drop_marker(&marker).is_ok());
    assert!(drop_marker("../players").is_err());
}

#[test]
fn catalogs_are_published_by_renaming() {
    let settled = SnapshotFiles { schema: true, temporary: false, backup: false };
    let steps = write_schema_snapshot(settled);
    assert_eq!(steps.last(), Some(&SnapshotStep::RemoveBackup));
    assert!(steps.contains(&SnapshotStep::Publish));
    let torn = SnapshotFiles { schema: false, temporary: false, backup: true };
    assert_eq!(recover_schema_snapshot(torn), vec![SnapshotStep::Restore]);
}

/// What a restart reads from the data folder: every table from its pages.
fn restarted(store: &Store) -> Store {
    let mut fresh = Store::new();
    for name in store.database_names() {
        let mut db = Database::new(&name);
        let before = store.database(&name).unwrap();
        for (table, schema) in before.schemas() {
            let pages = before.table(&table).unwrap().stored_pages().clone();
            let listed = pages.iter().map(|page| page.header.page_number).collect();
            db.load_table(&table, schema, &listed, pages).unwrap();
        }
        fresh.put_database(&name, db);
    }
    fresh
}

#[test]
fn indexed_read_uses_current_rewrite_overlay_without_stale_rows() {
    let mut store = recovery_store();
    run(&mut store, vec![insert_command("a", "1")]);
    run(&mut store, vec![update_command("a", "1", "latest")]);
    let database = store.database("game").unwrap();
    assert!(database.table("a").unwrap().has_overlay());
    let filter = Some(RowPredicate::Eq("id".into(), b"1".to_vec()));
    let rows = database.scan_table_filtered_limit("a", &filter, Some(1), &context()).unwrap();
    assert_eq!(rows.len(), 1);
    assert_eq!(rows[0].get("value"), Some(b"latest".as_slice()));
    assert_eq!(database.scan_table_filtered("a", &filter, &context()).unwrap().len(), 1);

    let table = database.table("a").unwrap();
    let mut places = Places::new();
    let columns = indexed_columns(table.schema());
    add_rows_to_value_index(&mut places, &columns, &table.rows(), 0);
    assert_eq!(places.get("id", b"1").len(), 1);
}

#[test]
fn actor_grouped_commits_survive_restart_without_duplicates() {
    let mut store = recovery_store();
    let pending = vec![
        request(1, vec![insert_command("a", "1")]),
        request(2, vec![insert_command("b", "2")]),
    ];
    let staged = stage_group(&mut store, &pending, &context());
    assert_eq!(staged.staged.len(), 2);
    assert!(staged.rest.is_empty() && staged.failed.is_empty());
    let mut stats = StorageStats::default();
    stats.record_group(staged.staged.len() as u64);
    assert_eq!((stats.group_commits, stats.grouped_requests), (1, 2));
    let group: Vec<Vec<WriteCommand>> =
        staged.staged.iter().map(|request| request.commands.clone()).collect();
    let logged = vec![flatten_group(&group)];
    assert!(all_succeeded(&apply_group(&mut store, &staged.staged, 0, &context())));

    let mut fresh = restarted(&store);
    assert_eq!(replay(&mut fresh, logged), 1);
    let left = scan(&fresh, "a");
    let right = scan(&fresh, "b");
    assert_eq!(left.len(), 1);
    assert_eq!(right.len(), 1);
    assert_eq!(left[0].get("id"), Some(b"1".as_slice()));
    assert_eq!(right[0].get("id"), Some(b"2".as_slice()));
}

#[test]
fn restart_after_recovery_apply_before_applied_marker_is_idempotent() {
    let mut store = recovery_store();
    let commands = vec![insert_command("a", "1")];
    apply_write_batch(&mut store, &commands, true, true, 0, &context()).unwrap();
    checkpoint_tables(&mut store, &vec![("game".to_string(), "a".to_string())], &context()).unwrap();

    let mut log = vec![
        WalEntry { lsn: 1, record_type: WalRecordType::Batch, tx_id: 1 },
        WalEntry { lsn: 2, record_type: WalRecordType::Commit, tx_id: 1 },
    ];
    assert_eq!(entries_to_replay(&log), vec![0]);
    let mut fresh = restarted(&store);
    assert_eq!(replay(&mut fresh, vec![commands]), 1);
    let rows = scan(&fresh, "a");
    assert_eq!(rows.len(), 1);
    assert_eq!(rows[0].get("id"), Some(b"1".as_slice()));

    log.push(WalEntry { lsn: 3, record_type: WalRecordType::Applied, tx_id: 1 });
    assert!(entries_to_replay(&log).is_empty());
}

#[test]
fn auto_increment_id_is_materialized_in_batch_wal() {
    let mut store = recovery_store();
    let mut schema = recovery_schema("ids");
    schema.create_sql =
        Some("CREATE TABLE ids (id BIGINT AUTO_INCREMENT PRIMARY KEY) ENGINE=InnoDB".into());
    run(&mut store, vec![WriteCommand::CreateTable { database: "game".into(), schema }]);
    let commands = vec![insert_command("ids", "0"), insert_command("ids", "0")];
    let staged = stage_group(&mut store, &vec![request(1, commands)], &context());
    let mut ids = Vec::new();
    for command in &staged.staged[0].commands {
        if let WriteCommand::Insert { row, .. } = command {
            ids.push(row.get("id").unwrap().to_vec());
        }
    }
    assert_eq!(ids, vec![b"1".to_vec(), b"2".to_vec()]);
    let mut replies = apply_group(&mut store, &staged.staged, 0, &context());
    let result = replies.remove(0).outcome.unwrap();
    assert_eq!(result.last_insert_id, 1);
    assert_eq!(result.affected_rows, 2);
}
