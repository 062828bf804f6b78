//! Pages, rows, tables, databases and the buffer pool.
use mydb::actor::{apply_group, stage_group, WriteRequest};
use mydb::alter::AlterTableOperation;
use mydb::bufferpool::{checked_size, page_namespace, BufferPool, Checkpointer};
use mydb::commands::{WriteCommand, WriteResult};
use mydb::database::Database;
use mydb::disk::DiskManager;
use mydb::error::{DbError, DbResult};
use mydb::inventory::{
    may_remove, orphan_storage, storage_inventory, DatabaseUsage, FoundEntry, OrphanStorage,
};
use mydb::manager::StorageEngineManager;
use mydb::page::{Page, PageType};
use mydb::predicate::{Context, Readings, RowPredicate};
use mydb::recovery::{is_page_only_directory, FolderEntry};
use mydb::row::Row;
use mydb::schema::{Column, DataType, Index, Moment, TableEngine, TableSchema};
use mydb::sqltext::auto_increment_column;
use mydb::store::Store;
use mydb::values::{ExpressionAssignment, NumericOperator, UpdateValueExpression};

fn moment() -> Moment {
    Moment { seconds: "2026-01-02 03:04:05".to_string(), nanos: 123_456_789 }
}

fn context() -> Context {
    Context { moment: moment(), readings: Readings { entries: Vec::new() } }
}

fn column(name: &str, data_type: DataType, nullable: bool, is_primary_key: bool) -> Column {
    Column { name: name.to_string(), data_type, nullable, default: None, is_primary_key }
}

fn schema(name: &str, columns: Vec<Column>, key: &[&str]) -> TableSchema {
    TableSchema {
        name: name.to_string(),
        columns,
        primary_key: Some(key.iter().map(|s| s.to_string()).collect()),
        indexes: vec![],
        triggers: Vec::new(),
        next_page_number: 0,
        generation: 0,
        create_sql: None,
        engine: TableEngine::Neko233,
    }
}

fn row(cells: &[(&str, &str)]) -> Row {
    let mut row = Row::new();
    for (name, value) in cells {
        row.push(name, value.as_bytes().to_vec());
    }
    row
}

fn execute(store: &mut Store, commands: Vec<WriteCommand>) -> DbResult<WriteResult> {
    let pending = vec![WriteRequest { id: 1, commands, prepared: false, last_insert_id: 0 }];
    let mut staged = stage_group(store, &pending, &context());
    if let Some((_, message)) = staged.failed.pop() {
        return Err(DbError::new(message));
    }
    let mut replies = apply_group(store, &staged.staged, 0, &context());
    replies.remove(0).outcome
}

fn game() -> Store {
    let mut store = Store::new();
    execute(&mut store, vec![WriteCommand::CreateDatabase("game".to_string())]).unwrap();
    store
}

fn create(store: &mut Store, schema: TableSchema) {
    execute(store, vec![WriteCommand::CreateTable { database: "game".to_string(), schema }]).unwrap();
}

fn insert(table: &str, cells: &[(&str, &str)]) -> WriteCommand {
    WriteCommand::Insert { database: "game".to_string(), table: table.to_string(), row: row(cells) }
}

fn scan(store: &Store, table: &str) -> Vec<Row> {
    store.database("game").unwrap().scan_table(table).unwrap()
}

#[test]
fn test_buffer_pool_size_parsing() {
    assert_eq!(BufferPool::parse_size("1G"), 1024 * 1024 * 1024);
    assert_eq!(BufferPool::parse_size("512M"), 512 * 1024 * 1024);
    assert_eq!(BufferPool::parse_size("64K"), 64 * 1024);
    assert_eq!(BufferPool::parse_size("1024"), 1024);
}

#[test]
fn test_page_encode_decode_roundtrip() {
    let mut page = Page::new(42, PageType::Data, 1024);
    page.header.lsn = 100;
    page.header.row_count = 5;
    page.data[..11].copy_from_slice(b"hello world");

    let encoded = page.encode();
    let decoded = Page::decode(&encoded).unwrap();

    assert_eq!(decoded.header.page_number, 42);
    assert_eq!(decoded.header.lsn, 100);
    assert_eq!(decoded.header.row_count, 5);
    assert_eq!(&decoded.data[..11], b"hello world");
}

#[test]
fn test_page_encode_decode() {
    let mut page = Page::new(42, PageType::Data, 1024);
    page.header.lsn = 100;
    page.header.row_count = 5;
    page.data[..11].copy_from_slice(b"hello world");
    let encoded = page.encode();
    assert_eq!(encoded.len(), 1024 + 57);
    let mut broken = encoded.clone();
    broken[30] ^= 1;
    assert!(Page::decode(&broken).is_none());
    let mut broken = encoded;
    broken[6] ^= 1;
    assert!(Page::decode(&broken).is_none());
}

#[test]
fn test_row_encode_decode_roundtrip() {
    let mut row = Row::new();
    row.push("id", 42u32.to_le_bytes().to_vec());
    row.push("name", b"Alice".to_vec());
    row.push("score", 99.5f64.to_le_bytes().to_vec());

    let encoded = row.encode();
    let mut decoded = Row::decode(&encoded).unwrap();

    assert_eq!(decoded.get("ID"), Some(42u32.to_le_bytes().as_slice()));
    assert_eq!(decoded.get("name"), Some(b"Alice".as_slice()));
    assert_eq!(decoded.get("score"), Some(99.5f64.to_le_bytes().as_slice()));
    decoded.set("NAME", b"Bob".to_vec());
    assert_eq!(decoded.get("name"), Some(b"Bob".as_slice()));
    assert_eq!(
        decoded
            .values
            .iter()
            .filter(|(column, _)| column.eq_ignore_ascii_case("name"))
            .count(),
        1
    );
    decoded.set_null("SCORE");
    assert!(decoded.is_null("score"));
    decoded.set("score", b"100".to_vec());
    assert!(!decoded.is_null("SCORE"));
}

#[test]
fn row_maps_replace_ill_formed_text() {
    let mut r = Row::new();
    r.push("a", vec![0x61, 0xff]);
    r.push_null("b");
    let map = r.to_string_map();
    assert_eq!(map.get("a").map(|s| s.as_str()), Some("a\u{fffd}"));
}

#[test]
fn test_buffer_pool_creation() {
    let pool = BufferPool::new(16384, "1G");
    assert!(pool.get_page(0).is_none());
}

#[test]
fn test_buffer_pool_insert_get() {
    let mut pool = BufferPool::new(16384, "1M");
    let page = Page::new(0, PageType::Data, 16384);
    pool.insert_page(page);
    assert!(pool.get_page(0).is_some());
    assert_eq!(pool.page_count(), 1);
    pool.mark_dirty(0);
    assert_eq!(pool.get_all_dirty_pages().len(), 1);
    let flushed = Checkpointer::new(1000).checkpoint(&mut pool);
    assert_eq!(flushed.len(), 1);
    assert_eq!((flushed[0].0.as_str(), flushed[0].1.header.page_number), ("", 0));
    assert!(pool.get_all_dirty_pages().is_empty());
    let mut changed = Page::new(7, PageType::Data, 16384);
    changed.header.is_dirty = true;
    pool.insert_table_page("game/t", changed);
    let flushed = Checkpointer::new(1000).checkpoint(&mut pool);
    assert_eq!((flushed[0].0.as_str(), flushed[0].1.header.page_number), ("game/t", 7));
    assert!(pool.get_table_page("game/t", 7).is_some());
    assert!(pool.get_table_page("game/u", 7).is_none());
    let pages = vec![Page::new(1, PageType::Data, 16384), Page::new(2, PageType::Data, 16384)];
    pool.insert_table_pages(&page_namespace("game", "u"), &pages);
    assert!(pool.get_table_page("game/u", 1).is_some());
    assert_eq!(pool.page_count(), 4);
    pool.clear();
    assert_eq!(pool.page_count(), 0);
}

#[test]
fn sizes_must_fit() {
    assert_eq!(checked_size("2K"), Some(2048));
    assert_eq!(checked_size("99999999999G"), None);
    assert_eq!(checked_size("many"), Some(1));
}

#[test]
fn test_database_operations() {
    let mut db = Database::new("test_db");
    let users = schema(
        "users",
        vec![
            column("id", DataType::Int, false, true),
            column("name", DataType::Varchar(100), false, false),
        ],
        &["id"],
    );
    db.create_table(users).unwrap();
    let tables = db.list_tables();
    assert_eq!(tables.len(), 1);
    assert!(tables.contains(&"users".to_string()));
    let table = db.get_table("users").unwrap();
    assert_eq!(table.name, "users");
    assert_eq!(table.columns.len(), 2);
    assert!(db.create_table(table).is_err());
    assert!(db.drop_table("nobody").is_err());
}

#[test]
fn test_storage_engine_manager() {
    let mut manager = StorageEngineManager::new(16384, "1M");
    execute(&mut manager.store, vec![WriteCommand::CreateDatabase("test_db".to_string())]).unwrap();
    let databases = manager.list_databases();
    assert!(databases.contains(&"test_db".to_string()));
    let db = manager.get_database("test_db").unwrap();
    assert_eq!(db.name, "test_db");
    assert!(manager.get_database("other").is_none());
}

#[test]
fn test_insert_and_scan_rows() {
    let mut db = Database::new("test_db");
    db.create_table(schema("users", vec![column("id", DataType::Int, false, true)], &["id"])).unwrap();

    let mut row1 = Row::new();
    row1.push("id", 1i32.to_le_bytes().to_vec());
    db.insert_row("users", row1, &moment()).unwrap();

    let mut row2 = Row::new();
    row2.push("id", 2i32.to_le_bytes().to_vec());
    db.insert_row("users", row2, &moment()).unwrap();

    let rows = db.scan_table("users").unwrap();
    assert_eq!(rows.len(), 2);
}

#[test]
fn test_db233_batch_upsert_and_insert_ignore() {
    let mut db = Database::new("game");
    db.create_table(schema(
        "players",
        vec![
            column("playerId", DataType::Varchar(64), false, true),
            column("name", DataType::Varchar(64), false, false),
            column("level", DataType::Int, false, false),
        ],
        &["playerId"],
    ))
    .unwrap();
    let player = |id: &str, name: &str, level: &str| row(&[("playerId", id), ("name", name), ("level", level)]);
    let columns = vec!["name".to_string(), "level".to_string()];
    assert_eq!(
        db.upsert_rows("players", &vec![player("p1", "A", "1"), player("p2", "B", "2")], &columns, false, &moment())
            .unwrap(),
        2
    );
    assert_eq!(
        db.upsert_rows("players", &vec![player("p1", "new", "9"), player("p3", "C", "3")], &columns, false, &moment())
            .unwrap(),
        3
    );
    assert_eq!(
        db.upsert_rows("players", &vec![player("p1", "ignored", "99")], &vec![], true, &moment()).unwrap(),
        0
    );
    let rows = db.scan_table("players").unwrap();
    assert_eq!(rows.len(), 3);
    let found = rows.iter().find(|item| item.get("playerId") == Some(b"p1".as_slice())).unwrap();
    assert_eq!(found.get("name"), Some(b"new".as_slice()));
    assert_eq!(found.get("level"), Some(b"9".as_slice()));
}

fn items() -> TableSchema {
    let mut items = schema(
        "items",
        vec![
            column("id", DataType::BigInt, false, true),
            column("name", DataType::Varchar(64), false, false),
        ],
        &["id"],
    );
    items.create_sql = Some(
        "CREATE TABLE items (id BIGINT AUTO_INCREMENT PRIMARY KEY, name VARCHAR(64) NOT NULL) ENGINE=InnoDB"
            .to_string(),
    );
    items
}

#[test]
fn test_auto_increment_returns_id_and_recovers_sequence() {
    let mut store = game();
    create(&mut store, items());
    let result = execute(&mut store, vec![insert("items", &[("name", "one")])]).unwrap();
    assert_eq!(result.last_insert_id, 1);

    // What a restart finds: the definition and the rows.
    let rows = scan(&store, "items");
    let mut reopened = Store::new();
    let mut db = Database::new("game");
    let pages = mydb::rowpages::pack_row_pages(0, &rows).unwrap();
    db.load_table("items", items(), &vec![0], pages).unwrap();
    reopened.put_database("game", db);
    let result = execute(&mut reopened, vec![insert("items", &[("name", "two")])]).unwrap();
    assert_eq!(result.last_insert_id, 2);
    let rows = scan(&reopened, "items");
    assert_eq!(rows.len(), 2);
    assert!(rows.iter().any(|row| row.get("id") == Some(b"2".as_slice())));
}

#[test]
fn test_indexed_equality_lookup_is_rebuilt_after_restart() {
    let events = || {
        schema(
            "events",
            vec![
                column("actor_id", DataType::BigInt, false, false),
                column("seq", DataType::BigInt, false, false),
            ],
            &["actor_id", "seq"],
        )
    };
    let mut db = Database::new("game");
    db.create_table(events()).unwrap();
    for (actor, seq) in [("7", "1"), ("7", "2"), ("9", "1")] {
        db.insert_row("events", row(&[("actor_id", actor), ("seq", seq)]), &moment()).unwrap();
    }
    let seven = Some(RowPredicate::Eq("actor_id".to_string(), b"7".to_vec()));
    let cx = context();
    assert_eq!(db.scan_table_filtered("events", &seven, &cx).unwrap().len(), 2);
    assert_eq!(db.scan_table_filtered_limit("events", &seven, Some(1), &cx).unwrap().len(), 1);
    assert!(db.scan_table_filtered_limit("events", &seven, Some(0), &cx).unwrap().is_empty());
    let several = Some(RowPredicate::In(
        "actor_id".to_string(),
        vec![b"7".to_vec(), b"9".to_vec(), b"404".to_vec()],
    ));
    assert_eq!(db.scan_table_filtered("events", &several, &cx).unwrap().len(), 3);

    let rows = db.scan_table("events").unwrap();
    let mut reopened = Database::new("game");
    reopened
        .load_table("events", events(), &vec![0], mydb::rowpages::pack_row_pages(0, &rows).unwrap())
        .unwrap();
    assert_eq!(reopened.scan_table_filtered("events", &seven, &cx).unwrap().len(), 2);
    let eight = Some(RowPredicate::Eq("actor_id".to_string(), b"8".to_vec()));
    assert!(reopened.scan_table_filtered("events", &eight, &cx).unwrap().is_empty());
}

#[test]
fn test_actor_batch_rejects_duplicate_primary_key_atomically() {
    let mut store = game();
    create(&mut store, schema("players", vec![column("id", DataType::Int, false, true)], &["id"]));
    let result = execute(
        &mut store,
        vec![insert("players", &[("id", "1")]), insert("players", &[("id", "1")])],
    );
    assert!(result.is_err());
    assert!(scan(&store, "players").is_empty());
}

#[test]
fn test_actor_batch_packs_rows_into_shared_pages() {
    let mut store = game();
    create(&mut store, schema("events", vec![column("id", DataType::BigInt, false, true)], &["id"]));
    let commands = (0..100).map(|id| insert("events", &[("id", &id.to_string())])).collect();
    execute(&mut store, commands).unwrap();
    let rows = scan(&store, "events");
    assert_eq!(rows.len(), 100);
    let pages = mydb::rowpages::pack_row_pages(0, &rows).unwrap();
    assert!(pages.len() < 5, "expected packed pages, got {}", pages.len());
}

#[test]
fn test_drop_and_recreate_table_removes_old_rows() {
    let mut store = game();
    let players = || schema("players", vec![column("id", DataType::BigInt, false, true)], &["id"]);
    create(&mut store, players());
    execute(&mut store, vec![insert("players", &[("id", "1")])]).unwrap();
    execute(
        &mut store,
        vec![WriteCommand::DropTable { database: "game".to_string(), table: "players".to_string() }],
    )
    .unwrap();
    create(&mut store, players());
    assert!(scan(&store, "players").is_empty());
}

#[test]
fn test_storage_cleanup_only_removes_unreferenced_page_directories() {
    let pages = vec![FolderEntry { name: "pages.dat".to_string(), is_file: true, is_symlink: false }];
    let notes = vec![FolderEntry { name: "do-not-delete.txt".to_string(), is_file: true, is_symlink: false }];
    assert!(is_page_only_directory(&pages));
    assert!(!is_page_only_directory(&notes));
    let entry = |name: &str, entries: &Vec<FolderEntry>| FoundEntry {
        name: name.to_string(),
        is_directory: true,
        is_link: false,
        page_only: is_page_only_directory(entries),
        bytes: 10,
    };
    let found = vec![entry("unmanaged", &notes), entry("used", &pages), entry("orphaned", &pages)];
    let active = vec!["used".to_string()];
    let before = orphan_storage("game", &active, &found);
    assert_eq!(before.len(), 1);
    assert_eq!(before[0].table, "orphaned");
    assert!(may_remove("orphaned", &active, true));
    assert!(!may_remove("used", &active, true));
    assert!(!may_remove("unmanaged", &active, false));

    let orphan = OrphanStorage { database: "game".to_string(), table: "orphaned".to_string(), bytes: 10 };
    let usage = DatabaseUsage {
        database: "game".to_string(),
        bytes: 30,
        tables: active,
        orphans: vec![orphan],
    };
    let inventory = storage_inventory("data", 45, 5, &vec![usage]);
    assert_eq!(inventory.orphan_bytes, 10);
    assert_eq!(inventory.active_bytes, 25);
    assert_eq!(inventory.databases[0].active_tables, vec!["used"]);
}

#[test]
fn test_unique_index_is_enforced_atomically_and_allows_multiple_nulls() {
    let mut store = game();
    let mut accounts = schema(
        "accounts",
        vec![
            column("id", DataType::BigInt, false, true),
            column("email", DataType::Varchar(255), true, false),
        ],
        &["id"],
    );
    accounts.indexes = vec![Index {
        name: "email_unique".to_string(),
        columns: vec!["email".to_string()],
        unique: true,
    }];
    create(&mut store, accounts);
    let same = "same@example.test";
    let duplicate = execute(
        &mut store,
        vec![
            insert("accounts", &[("id", "1"), ("email", same)]),
            insert("accounts", &[("id", "2"), ("email", same)]),
        ],
    );
    assert!(duplicate.is_err());
    assert!(scan(&store, "accounts").is_empty());
    let without = |id: &str| {
        let mut r = row(&[("id", id)]);
        r.push_null("email");
        WriteCommand::Insert { database: "game".to_string(), table: "accounts".to_string(), row: r }
    };
    execute(&mut store, vec![without("1"), without("2")]).unwrap();
    assert_eq!(scan(&store, "accounts").len(), 2);
}

#[test]
fn alter_index_preserves_auto_increment_across_schema_reload() {
    let mut store = game();
    create(&mut store, items());
    execute(
        &mut store,
        vec![WriteCommand::AlterTable {
            database: "game".to_string(),
            table: "items".to_string(),
            operation: AlterTableOperation::AddIndex(Index {
                name: "name_idx".to_string(),
                columns: vec!["name".to_string()],
                unique: false,
            }),
        }],
    )
    .unwrap();
    let persisted = store.database("game").unwrap().get_table("items").unwrap();
    assert_eq!(auto_increment_column(&persisted).as_deref(), Some("id"));
    assert!(persisted.create_sql.as_deref().unwrap().contains("AUTO_INCREMENT"));
    let result = execute(&mut store, vec![insert("items", &[("id", "0"), ("name", "x")])]).unwrap();
    assert_eq!(result.last_insert_id, 1);
}

#[test]
fn auto_increment_ids_are_materialized() {
    let mut store = game();
    create(&mut store, items());
    let result = execute(
        &mut store,
        vec![insert("items", &[("id", "0"), ("name", "a")]), insert("items", &[("id", "0"), ("name", "b")])],
    )
    .unwrap();
    assert_eq!(result.last_insert_id, 1);
    assert_eq!(result.affected_rows, 2);
    let ids: Vec<Vec<u8>> = scan(&store, "items").iter().map(|r| r.get("id").unwrap().to_vec()).collect();
    assert_eq!(ids, vec![b"1".to_vec(), b"2".to_vec()]);
}

#[test]
fn test_disk_manager_read_write_page() {
    let dm = DiskManager::new("data".to_string(), 1024);
    let mut page = Page::new(0, PageType::Data, 1024);
    page.data[..5].copy_from_slice(b"hello");
    let written = dm.write_page(&page);
    assert!(written.outcome.is_ok());
    let (offset, bytes) = &written.writes[0];
    assert_eq!(*offset, 0);
    let loaded = dm.read_page("test_table", 0, bytes).unwrap().unwrap();
    assert_eq!(loaded.header.page_number, 0);
    assert_eq!(&loaded.data[..5], b"hello");
}

#[test]
fn disk_manager_rejects_corrupt_or_truncated_page_segments() {
    let dm = DiskManager::new("data".to_string(), 1024);
    let written = dm.write_page(&Page::new(0, PageType::Data, 1024));
    let mut segment = written.writes[0].1.clone();
    segment[25] = 0xff;
    let error = dm.read_page("test_table", 0, &segment).unwrap_err();
    assert!(error.to_string().contains("Page corruption"));
    segment.push(0);
    let error = dm.list_pages("test_table", segment.len() as u64).unwrap_err();
    assert!(error.to_string().contains("truncated"));
}

fn expression(operator: NumericOperator, operand: &str) -> Vec<ExpressionAssignment> {
    vec![ExpressionAssignment {
        target_column: "score".to_string(),
        value: UpdateValueExpression::Numeric {
            source_column: "score".to_string(),
            operator,
            operand: operand.as_bytes().to_vec(),
        },
    }]
}

#[test]
fn decimal_arithmetic_is_exact() {
    let decimal = schema(
        "t",
        vec![
            column("id", DataType::Int, false, true),
            column("score", DataType::Raw("DECIMAL(10,2)".to_string()), true, false),
        ],
        &["id"],
    );
    let mut db = Database::new("game");
    db.create_table(decimal).unwrap();
    db.insert_row("t", row(&[("id", "1"), ("score", "10.25")]), &moment()).unwrap();
    let mut step = |operator, operand: &str| {
        db.update_rows_expression_mode("t", &None, &expression(operator, operand), false, &context()).unwrap();
        let found = db.scan_table("t").unwrap();
        String::from_utf8(found[0].get("score").unwrap().to_vec()).unwrap()
    };
    assert_eq!(step(NumericOperator::Add, "0.125"), "10.38");
    assert_eq!(step(NumericOperator::Subtract, "0.38"), "10.00");
    assert_eq!(step(NumericOperator::Multiply, "1.5"), "15.00");
    assert_eq!(step(NumericOperator::Divide, "4"), "3.75");
}

#[test]
fn whole_numbers_are_rounded_half_up() {
    let whole = schema(
        "t",
        vec![
            column("id", DataType::Int, false, true),
            column("score", DataType::Int, true, false),
        ],
        &["id"],
    );
    let mut db = Database::new("game");
    db.create_table(whole).unwrap();
    db.insert_row("t", row(&[("id", "1"), ("score", "5")]), &moment()).unwrap();
    db.update_rows_expression_mode("t", &None, &expression(NumericOperator::Divide, "2"), false, &context()).unwrap();
    assert_eq!(db.scan_table("t").unwrap()[0].get("score"), Some(b"3".as_slice()));
    let zero = expression(NumericOperator::Divide, "0");
    let error = db.update_rows_expression_mode("t", &None, &zero, false, &context()).unwrap_err();
    assert_eq!(error.to_string(), "Division by 0");
    let text = expression(NumericOperator::Add, "much");
    assert!(db.update_rows_expression_mode("t", &None, &text, false, &context()).is_err());
    assert_eq!(db.scan_table("t").unwrap()[0].get("score"), Some(b"3".as_slice()));
}

#[test]
fn checks_compare_by_value() {
    let mut store = game();
    let mut checked = schema(
        "t",
        vec![
            column("id", DataType::Int, false, true),
            column("score", DataType::Int, true, false),
        ],
        &["id"],
    );
    checked.create_sql = Some("CREATE TABLE t (id INT PRIMARY KEY, score INT, CHECK (score >= 10))".to_string());
    create(&mut store, checked);
    assert!(execute(&mut store, vec![insert("t", &[("id", "1"), ("score", "9")])]).is_err());
    execute(&mut store, vec![insert("t", &[("id", "1"), ("score", "10.0")])]).unwrap();
    execute(&mut store, vec![insert("t", &[("id", "2"), ("score", "100")])]).unwrap();
    assert_eq!(scan(&store, "t").len(), 2);
}

#[test]
fn foreign_keys_cascade() {
    let mut store = game();
    create(&mut store, schema("owners", vec![column("id", DataType::Int, false, true)], &["id"]));
    let mut pets = schema(
        "pets",
        vec![
            column("id", DataType::Int, false, true),
            column("owner", DataType::Int, true, false),
        ],
        &["id"],
    );
    pets.create_sql = Some(
        "CREATE TABLE pets (id INT PRIMARY KEY, owner INT, CONSTRAINT fk FOREIGN KEY (owner) REFERENCES owners (id) ON DELETE CASCADE)"
            .to_string(),
    );
    create(&mut store, pets);
    assert!(execute(&mut store, vec![insert("pets", &[("id", "1"), ("owner", "7")])]).is_err());
    execute(&mut store, vec![insert("owners", &[("id", "7")])]).unwrap();
    execute(&mut store, vec![insert("pets", &[("id", "1"), ("owner", "7")])]).unwrap();
    execute(
        &mut store,
        vec![WriteCommand::Delete {
            database: "game".to_string(),
            table: "owners".to_string(),
            filter: Some(RowPredicate::Eq("id".to_string(), b"7".to_vec())),
        }],
    )
    .unwrap();
    assert!(scan(&store, "pets").is_empty());
}

#[test]
fn timestamps_are_filled_in() {
    let mut stamped = schema(
        "t",
        vec![
            column("id", DataType::Int, false, true),
            column("at", DataType::Timestamp, true, false),
        ],
        &["id"],
    );
    stamped.columns[1].default = Some("CURRENT_TIMESTAMP(3)".to_string());
    let mut db = Database::new("game");
    db.create_table(stamped).unwrap();
    db.insert_row("t", row(&[("id", "1")]), &moment()).unwrap();
    assert_eq!(
        db.scan_table("t").unwrap()[0].get("at"),
        Some(b"2026-01-02 03:04:05.123".as_slice())
    );
    assert_eq!(Moment::now().seconds.len(), 19);
}

#[test]
fn white_space_is_that_of_unicode() {
    for code in 0..=0x10ffffu32 {
        if let Some(c) = char::from_u32(code) {
            assert_eq!(mydb::text::char_is_white(c), c.is_whitespace(), "U+{code:04X}");
        }
    }
}
