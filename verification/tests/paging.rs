//! Pages in files, the log file, and what a row holds after assignments.
use mydb::actor::{apply_group, stage_group, WriteRequest};
use mydb::alter::{apply_alter_schema, AlterTableOperation, ColumnPosition};
use mydb::commands::WriteCommand;
use mydb::database::Database;
use mydb::disk::DiskManager;
use mydb::dump::{pack, unpack};
use mydb::journal::{frame_record, read_records, LogRecord};
use mydb::page::Page;
use mydb::predicate::{Context, Readings, RowPredicate};
use mydb::referential::apply_referential_source_command;
use mydb::row::Row;
use mydb::rowpages::{next_number, pack_row_pages, pages_in_order};
use mydb::schema::{Column, DataType, Moment, TableEngine, TableSchema};
use mydb::store::Store;
use mydb::values::{
    apply_expression_assignments, apply_expression_assignments_at, format_numeric_assignment,
    ExpressionAssignment, NumericOperator, UpdateValueExpression,
};
use mydb::wal::{WalEntry, WalRecordType};

fn moment() -> Moment {
    Moment { seconds: "2026-01-02 03:04:05".to_string(), nanos: 0 }
}

fn context() -> Context {
    Context { moment: moment(), readings: Readings { entries: Vec::new() } }
}

fn column(name: &str, data_type: DataType, key: bool) -> Column {
    Column { name: name.to_string(), data_type, nullable: !key, default: None, is_primary_key: key }
}

fn items() -> TableSchema {
    TableSchema {
        name: "items".to_string(),
        columns: vec![column("id", DataType::Int, true), column("n", DataType::Text, false)],
        primary_key: Some(vec!["id".to_string()]),
        indexes: Vec::new(),
        triggers: Vec::new(),
        next_page_number: 0,
        generation: 0,
        create_sql: None,
        engine: TableEngine::Neko233,
    }
}

fn row(id: &str, n: &str) -> Row {
    let mut row = Row::new();
    row.push("id", id.as_bytes().to_vec());
    row.push("n", n.as_bytes().to_vec());
    row
}

fn numbers(db: &Database) -> Vec<u32> {
    db.table("items").unwrap().stored_pages().iter().map(|page| page.header.page_number).collect()
}

#[test]
fn new_rows_go_behind_the_pages_of_a_table() {
    let mut db = Database::new("game");
    db.create_table(items()).unwrap();
    for id in ["1", "2", "3"] {
        db.insert_row("items", row(id, "x"), &moment()).unwrap();
    }
    assert_eq!(numbers(&db), vec![0, 1, 2]);
    assert_eq!(db.table("items").unwrap().schema().next_page_number, 3);
}

#[test]
fn a_new_table_has_no_pages() {
    let mut db = Database::new("game");
    let mut schema = items();
    schema.next_page_number = 4;
    db.create_table(schema).unwrap();
    assert!(numbers(&db).is_empty());
    db.insert_row("items", row("1", "x"), &moment()).unwrap();
    assert_eq!(numbers(&db), vec![4]);
    assert_eq!(db.table("items").unwrap().schema().next_page_number, 5);
}

#[test]
fn page_numbers_run_out() {
    let mut db = Database::new("game");
    let mut schema = items();
    schema.next_page_number = u32::MAX - 1;
    db.create_table(schema).unwrap();
    db.insert_row("items", row("1", "x"), &moment()).unwrap();
    assert_eq!(numbers(&db), vec![u32::MAX - 1]);
    let error = db.insert_row("items", row("2", "x"), &moment()).unwrap_err();
    assert_eq!(error.to_string(), "Table has no page numbers left");
    assert_eq!(db.scan_table("items").unwrap().len(), 1);
}

#[test]
fn a_loaded_table_counts_on_behind_its_listing() {
    let mut db = Database::new("game");
    let pages = pack_row_pages(5, &[row("1", "x")]).unwrap();
    db.load_table("items", items(), &vec![5], pages).unwrap();
    assert_eq!(db.table("items").unwrap().schema().next_page_number, 6);
    db.insert_row("items", row("2", "y"), &moment()).unwrap();
    assert_eq!(numbers(&db), vec![5, 6]);
    assert_eq!(db.scan_table("items").unwrap().len(), 2);

    let pages = pack_row_pages(5, &[row("1", "x")]).unwrap();
    assert!(!pages_in_order(&pages, 5));
    let error = db.load_table("items", items(), &vec![0, 1], pages).unwrap_err();
    assert_eq!(error.to_string(), "Pages of table 'items' are not those listed");
    assert_eq!(next_number(&vec![3, 9, 4]), 10);
    assert_eq!(next_number(&vec![]), 0);
}

#[test]
fn a_table_is_read_back_from_its_segment_file() {
    let disk = DiskManager::new("data".to_string(), 16384);
    let mut db = Database::new("game");
    db.create_table(items()).unwrap();
    for id in ["1", "2", "3"] {
        db.insert_row("items", row(id, "x"), &moment()).unwrap();
    }
    let pages = db.table("items").unwrap().stored_pages();
    let planned = disk.write_pages(pages);
    assert!(planned.outcome.is_ok());
    let mut file: Vec<u8> = Vec::new();
    for (place, bytes) in &planned.writes {
        file.resize((*place as usize + bytes.len()).max(file.len()), 0);
        file[*place as usize..*place as usize + bytes.len()].copy_from_slice(bytes);
    }
    let listed = disk.list_pages("items", file.len() as u64).unwrap();
    let record = file.len() / listed.len();
    let mut back: Vec<Page> = Vec::new();
    for number in &listed {
        let at = *number as usize * record;
        back.push(disk.read_page("items", *number, &file[at..at + record]).unwrap().unwrap());
    }
    let mut again = Database::new("game");
    again.load_table("items", items(), &listed, back).unwrap();
    assert_eq!(again.scan_table("items").unwrap().len(), 3);
    assert_eq!(numbers(&again), vec![0, 1, 2]);
}

#[test]
fn a_file_with_too_many_pages_is_refused() {
    let disk = DiskManager::new("data".to_string(), 16384);
    let record = disk.delete_page(0).1.len() as u64;
    let error = disk.list_pages("items", record * (1 << 32)).unwrap_err();
    assert_eq!(error.to_string(), "Page segment for table 'items' has too many pages");
}

fn entry(lsn: u64, record_type: WalRecordType) -> WalEntry {
    WalEntry { lsn, record_type, tx_id: lsn + 100 }
}

#[test]
fn logged_records_are_read_until_one_is_cut_off() {
    let first = LogRecord { entry: entry(1, WalRecordType::GroupCommit), data: b"one".to_vec() };
    let second = LogRecord { entry: entry(2, WalRecordType::Applied), data: Vec::new() };
    let mut file = frame_record(&first);
    let whole = file.len();
    file.extend(frame_record(&second));
    let (records, end) = read_records(&file);
    assert_eq!(end, file.len());
    assert_eq!(records.len(), 2);
    assert_eq!((records[0].entry, records[0].data.as_slice()), (first.entry, b"one".as_slice()));
    assert_eq!(records[1].entry, second.entry);

    let (records, end) = read_records(&file[..file.len() - 1]);
    assert_eq!((records.len(), end), (1, whole));
    file[whole + 45] ^= 1;
    assert_eq!(read_records(&file).0.len(), 1);
    assert!(read_records(b"").0.is_empty());
}

fn literal(target: &str, value: &str) -> ExpressionAssignment {
    ExpressionAssignment {
        target_column: target.to_string(),
        value: UpdateValueExpression::Literal(Some(value.as_bytes().to_vec())),
    }
}

#[test]
fn a_row_keeps_the_assignments_before_one_that_fails() {
    let list = vec![literal("n", "new"), literal("nowhere", "x"), literal("id", "9")];
    let mut at_moment = row("1", "old");
    let error =
        apply_expression_assignments_at(&mut at_moment, &items(), &list, &moment()).unwrap_err();
    assert_eq!(error.to_string(), "Unknown column 'nowhere'");
    assert_eq!(at_moment.get("n"), Some(b"new".as_slice()));
    assert_eq!(at_moment.get("id"), Some(b"1".as_slice()));
    let mut now = row("1", "old");
    assert!(apply_expression_assignments(&mut now, &items(), &list).is_err());
    assert_eq!(now.get("n"), Some(b"new".as_slice()));
}

/// The serialized form of digits and a scale.
fn decimal(digits: u128, scale: u128) -> u128 {
    (digits << 32) + (scale << 16)
}

#[test]
fn decimal_columns_show_all_their_places() {
    let text = |digits, scale, data_type: &str| {
        format_numeric_assignment(decimal(digits, scale), &DataType::Raw(data_type.to_string()))
    };
    assert_eq!(text(125, 2, "DECIMAL(10,1)").unwrap(), "1.3");
    assert_eq!(text(1, 2, "DECIMAL(30,28)").unwrap(), "0.0100000000000000000000000000");
    assert_eq!(text(1, 2, "DECIMAL(40,29)").unwrap(), "0.01000000000000000000000000000");
    assert_eq!(text(1, 2, "DECIMAL(40,30)").unwrap(), "0.010000000000000000000000000000");
    assert_eq!(text(0, 0, "DECIMAL(40,40)").unwrap(), "0.0000000000000000000000000000");
    let large = 70_000_000_000_000_000_000_000_000_000;
    assert_eq!(text(large, 2, "DECIMAL(60,40)").unwrap(), "700000000000000000000000000.00");
    let error = text(1, 5, "DECIMAL(60,40)").unwrap_err();
    assert_eq!(
        error.to_string(),
        "Data type 'DECIMAL(60,40)' has too many decimal places"
    );
}

#[test]
fn an_operand_that_is_no_number_is_named_by_the_parser() {
    let list = vec![ExpressionAssignment {
        target_column: "id".to_string(),
        value: UpdateValueExpression::Numeric {
            source_column: "id".to_string(),
            operator: NumericOperator::Add,
            operand: b"much".to_vec(),
        },
    }];
    let error =
        apply_expression_assignments_at(&mut row("1", "x"), &items(), &list, &moment()).unwrap_err();
    let expected = "much".parse::<rust_decimal::Decimal>().unwrap_err().to_string();
    assert_eq!(error.to_string(), expected);
}

#[test]
fn the_level_decides_the_stream() {
    let sql = "INSERT INTO `t` VALUES ('aaaaaaaaaaaaaaaabbbbbbbbbbbbbbbb');\n".repeat(200);
    let quick = pack(&sql, 1).unwrap();
    let slow = pack(&sql, 19).unwrap();
    assert_ne!(quick, slow);
    assert_eq!(quick, pack(&sql, 1).unwrap());
    assert_eq!(unpack(&quick).unwrap(), unpack(&slow).unwrap());
}

fn counted() -> TableSchema {
    let mut schema = items();
    schema.create_sql = Some(
        "CREATE TABLE items (id INT AUTO_INCREMENT PRIMARY KEY, n TEXT) ENGINE=InnoDB".to_string(),
    );
    schema
}

fn insert(row: Row) -> WriteCommand {
    WriteCommand::Insert { database: "game".to_string(), table: "items".to_string(), row }
}

fn request(id: u64, commands: Vec<WriteCommand>) -> WriteRequest {
    WriteRequest { id, commands, prepared: false, last_insert_id: 0 }
}

fn game(schema: TableSchema) -> Store {
    let mut store = Store::new();
    let mut db = Database::new("game");
    db.create_table(schema).unwrap();
    store.put_database("game", db);
    store
}

#[test]
fn a_request_that_cannot_be_prepared_is_taken_up_again_without_its_commands() {
    let mut store = game(counted());
    let pending =
        vec![request(1, vec![insert(row("1", "x"))]), request(2, vec![insert(row("many", "y"))])];
    let staged = stage_group(&mut store, &pending, &context());
    assert_eq!(staged.staged.len(), 1);
    assert_eq!(staged.rest.len(), 1);
    assert_eq!((staged.rest[0].id, staged.rest[0].commands.len()), (2, 0));
    apply_group(&mut store, &staged.staged, 0, &context());
    let next = stage_group(&mut store, &staged.rest, &context());
    assert!(next.failed.is_empty() && next.rest.is_empty());
    let replies = apply_group(&mut store, &next.staged, 0, &context());
    assert_eq!(replies.len(), 1);
    assert_eq!(replies[0].id, 2);
    assert_eq!(replies[0].outcome.as_ref().unwrap().affected_rows, 0);
}

#[test]
fn a_request_that_opens_a_group_and_cannot_be_prepared_fails() {
    for bad in ["many", "-1", "99999999999999999999"] {
        let mut store = game(counted());
        let pending = vec![request(7, vec![insert(row(bad, "y"))])];
        let staged = stage_group(&mut store, &pending, &context());
        assert!(staged.staged.is_empty() && staged.rest.is_empty());
        assert_eq!(staged.failed.len(), 1);
        assert_eq!(staged.failed[0].0, 7);
        assert_eq!(staged.failed[0].1, bad.parse::<u64>().unwrap_err().to_string());
    }
}

#[test]
fn a_column_that_cannot_be_placed_is_gone() {
    let placed = AlterTableOperation::ModifyColumnAt {
        column: column("n", DataType::Text, false),
        position: ColumnPosition::After("nowhere".to_string()),
    };
    let mut schema = items();
    assert!(apply_alter_schema(&mut schema, &placed).is_err());
    let names: Vec<&str> = schema.columns.iter().map(|c| c.name.as_str()).collect();
    assert_eq!(names, vec!["id"]);

    let renamed = AlterTableOperation::ChangeColumn {
        old_name: "n".to_string(),
        column: column("m", DataType::Text, false),
        position: Some(ColumnPosition::After("nowhere".to_string())),
    };
    let mut schema = items();
    assert!(apply_alter_schema(&mut schema, &renamed).is_err());
    assert_eq!(schema.columns.len(), 1);

    let mut schema = items();
    assert!(apply_alter_schema(&mut schema, &AlterTableOperation::DropColumn("x".to_string())).is_err());
    assert_eq!(schema.columns.len(), 2);
}

#[test]
fn a_table_is_not_altered_by_a_column_that_cannot_be_placed() {
    let mut db = Database::new("game");
    db.create_table(items()).unwrap();
    let placed = AlterTableOperation::ModifyColumnAt {
        column: column("n", DataType::Text, false),
        position: ColumnPosition::After("nowhere".to_string()),
    };
    assert!(db.alter_table("items", &placed, &moment()).is_err());
    assert_eq!(db.table("items").unwrap().schema().columns.len(), 2);
}

fn texts(rows: &[Row]) -> Vec<Option<&[u8]>> {
    rows.iter().map(|row| row.get("n")).collect()
}

#[test]
fn a_failing_update_leaves_the_rows_that_it_reached() {
    let mut bare = Row::new();
    bare.push("n", b"b".to_vec());
    let schemas = vec![("items".to_string(), items())];
    let mut related = vec![("items".to_string(), vec![row("1", "a"), bare, row("3", "c")])];
    let update = WriteCommand::Update {
        database: "game".to_string(),
        table: "items".to_string(),
        filter: None,
        assignments: vec![("n".to_string(), Some(b"z".to_vec()))],
    };
    assert!(apply_referential_source_command(&update, &schemas, &mut related, &context()).is_err());
    let expected: Vec<Option<&[u8]>> = vec![Some(b"z"), Some(b"z"), Some(b"c")];
    assert_eq!(texts(&related[0].1), expected);
    assert_eq!(related[0].1[1].get("id"), None);

    let replace = WriteCommand::ReplaceRows {
        database: "game".to_string(),
        table: "items".to_string(),
        rows: vec![Row::new()],
        affected_rows: 1,
    };
    assert!(apply_referential_source_command(&replace, &schemas, &mut related, &context()).is_err());
    assert!(related[0].1.is_empty());
}

#[test]
fn abandoned_tables_are_counted_once() {
    let mut store = game(items());
    let pending = vec![
        request(1, vec![WriteCommand::CleanupOrphanStorage]),
        request(2, vec![WriteCommand::CleanupOrphanStorage]),
    ];
    let replies = apply_group(&mut store, &pending, 3, &context());
    let counts: Vec<u64> =
        replies.iter().map(|reply| reply.outcome.as_ref().unwrap().affected_rows).collect();
    assert_eq!(counts, vec![3, 0]);
}

#[test]
fn a_limit_takes_the_first_rows_of_a_scan() {
    let mut db = Database::new("game");
    db.create_table(items()).unwrap();
    for id in ["1", "2", "3"] {
        db.insert_row("items", row(id, "x"), &moment()).unwrap();
    }
    let filter = Some(RowPredicate::In("id".to_string(), vec![b"3".to_vec(), b"1".to_vec()]));
    let all = db.scan_table_filtered_limit("items", &filter, None, &context()).unwrap();
    let one = db.scan_table_filtered_limit("items", &filter, Some(1), &context()).unwrap();
    assert_eq!(all.len(), 2);
    assert_eq!(one.len(), 1);
    assert_eq!(one[0].get("id"), all[0].get("id"));
}
