//! The SQL inspection parser.
use mydb::parser::{unquote_identifier, AlterOperation, Parser, ShowTarget, Statement};
use mydb::sqltext::quote_name;

#[test]
fn parses_select_clauses_without_splitting_quoted_keywords() {
    let statement = Parser::new()
        .parse("SELECT id, 'FROM value' FROM `users` WHERE name='ORDER BY' ORDER BY id LIMIT 5;")
        .expect("valid select");
    let Statement::Select(statement) = statement else {
        panic!("expected select statement");
    };
    assert_eq!(statement.table, "users");
    assert_eq!(statement.columns, vec!["id", "'FROM value'"]);
    assert_eq!(statement.where_clause.as_deref(), Some("name='ORDER BY'"));
    assert_eq!(statement.order_by.as_deref(), Some("id"));
    assert_eq!(statement.limit, Some(5));
}

#[test]
fn parses_insert_update_delete_and_create() {
    let parser = Parser::new();
    let Statement::Insert(insert) = parser
        .parse("INSERT INTO t (id, name) VALUES (1, 'a,b'), (2, 'c')")
        .expect("valid insert")
    else {
        panic!("expected insert statement");
    };
    assert_eq!(insert.values[0], vec!["1", "'a,b'"]);

    let Statement::Update(update) = parser
        .parse("UPDATE t SET name='x', score=score+1 WHERE id=1")
        .expect("valid update")
    else {
        panic!("expected update statement");
    };
    assert_eq!(update.set_clause[1], ("score".into(), "score+1".into()));

    let Statement::Delete(delete) = parser
        .parse("DELETE FROM t WHERE id=1")
        .expect("valid delete")
    else {
        panic!("expected delete statement");
    };
    assert_eq!(delete.table, "t");

    let Statement::Create(create) = parser
        .parse("CREATE TABLE t (id BIGINT PRIMARY KEY, name VARCHAR(32) NOT NULL)")
        .expect("valid create")
    else {
        panic!("expected create statement");
    };
    assert_eq!(create.columns[0].data_type, "BIGINT");
    assert!(create.columns[0].primary_key);
    assert_eq!(create.columns[1].data_type, "VARCHAR(32)");
    assert!(!create.columns[1].nullable);
}

#[test]
fn parses_ddl_and_show_targets() {
    let parser = Parser::new();
    let Statement::Alter(alter) = parser
        .parse("ALTER TABLE t ADD COLUMN active BOOLEAN")
        .expect("valid alter")
    else {
        panic!("expected alter statement");
    };
    assert!(matches!(alter.operation, AlterOperation::AddColumn(_)));

    let Statement::Show(show) = parser.parse("SHOW COLUMNS FROM t").expect("valid show") else {
        panic!("expected show statement");
    };
    assert_eq!(show.target, ShowTarget::Columns("t".into()));
}

#[test]
fn rejects_unbalanced_sql_and_preserves_unknown_statements() {
    assert!(Parser::new().parse("SELECT ('broken'").is_err());
    assert!(matches!(
        Parser::new().parse("FLUSH TABLES").expect("unknown is valid"),
        Statement::Unknown(value) if value == "FLUSH TABLES"
    ));
}

#[test]
fn closing_semicolon_makes_no_difference() {
    let parser = Parser::new();
    assert_eq!(parser.parse("USE game;"), parser.parse("USE game"));
    assert_eq!(parser.parse("SHOW TABLES ; "), parser.parse("SHOW TABLES"));
}

#[test]
fn parse_errors_say_where() {
    let error = Parser::new().parse("").unwrap_err();
    assert!(error.to_string().contains(&error.message));
}

#[test]
fn quoted_names_are_read_back() {
    for name in ["items", "a`b", "``", "two words", "", "größe", "\"x\""] {
        assert_eq!(unquote_identifier(&quote_name(name)), name);
    }
    assert_eq!(unquote_identifier("plain"), "plain");
    assert_eq!(unquote_identifier("`a``b`"), "a`b");
}
