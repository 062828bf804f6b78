//! Row versions and read views.
use mydb::mvcc::{IsolationLevel, MvccManager};
use mydb::row::Row;

fn row(id: &str, value: &str) -> Row {
    let mut row = Row::new();
    row.row_id = id.parse().expect("row id");
    row.push("id", id.as_bytes().to_vec());
    row.push("value", value.as_bytes().to_vec());
    row
}

#[test]
fn repeatable_read_uses_version_chain_and_purge_keeps_active_view() {
    let mut manager = MvccManager::new();
    let first = row("1", "before");
    manager.seed_table("db", "t", &vec![first.clone()]);
    let transaction = manager.begin(IsolationLevel::RepeatableRead);
    let view = manager.read_view(transaction).expect("read view");
    let second = row("1", "after");
    let commit = manager.allocate_commit_id();
    manager.record_table_commit("db", "t", &vec![first.clone()], &vec![second.clone()], commit);

    let visible = manager.visible_table("db", "t", &vec![second], &view);
    assert_eq!(visible[0].get("value"), Some(b"before".as_slice()));
    assert_eq!(manager.history_len(), 1);
    manager.end(transaction);
    assert_eq!(manager.history_len(), 0);
}

#[test]
fn deleted_rows_remain_visible_to_an_older_read_view() {
    let mut manager = MvccManager::new();
    let first = row("1", "before");
    manager.seed_table("db", "t", &vec![first.clone()]);
    let transaction = manager.begin(IsolationLevel::RepeatableRead);
    let view = manager.read_view(transaction).expect("read view");
    let commit = manager.allocate_commit_id();
    manager.record_table_commit("db", "t", &vec![first], &vec![], commit);

    let visible = manager.visible_table("db", "t", &vec![], &view);
    assert_eq!(visible.len(), 1);
    assert_eq!(visible[0].get("id"), Some(b"1".as_slice()));
}

#[test]
fn inserted_rows_are_hidden_from_an_older_read_view() {
    let mut manager = MvccManager::new();
    let transaction = manager.begin(IsolationLevel::RepeatableRead);
    let view = manager.read_view(transaction).expect("read view");
    let inserted = row("1", "after");
    let commit = manager.allocate_commit_id();
    manager.record_insert_rows("db", "t", &[inserted.row_id], commit);

    assert!(manager.visible_table("db", "t", &vec![inserted], &view).is_empty());
    manager.end(transaction);
}

#[test]
fn committed_reads_move_on_and_repeatable_reads_do_not() {
    let mut manager = MvccManager::new();
    let repeatable = manager.begin(IsolationLevel::RepeatableRead);
    let committed = manager.begin(IsolationLevel::ReadCommitted);
    let first = manager.read_view(repeatable).unwrap().snapshot;
    manager.allocate_commit_id();
    assert_eq!(manager.read_view(repeatable).unwrap().snapshot, first);
    assert!(manager.read_view(committed).unwrap().snapshot > first);
    assert!(manager.read_view(9999).is_err());
}
