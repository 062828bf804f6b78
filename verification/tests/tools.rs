//! The client, the updater, the dump, the migration and the benchmark.
use mydb::agentclient::{
    agent_password, agent_request, decode_chunked, json_string, parse_agent_http_response,
    request_bytes, AgentCommand,
};
use mydb::bench::{
    batch_sql, benchmark_table_name, check_cleanup, check_rows, check_sizes, database_name,
    expected_rows, hex_literal, payload, percentile_us, plan_batches, Batch, WriteMode,
};
use mydb::cells::{digest_table, format_mysql_value, format_row, Cell};
use mydb::dump;
use mydb::dump::{
    assemble_manifest, backup_summary, check_data, check_engines, check_format, check_restored,
    data_file_name, entry_file, find_prior, pack, plan_restore, quote_bytes, settle_table,
    unpack, BackupKind, BackupRun, RestoreOptions, RestoreStep, SourceTable, TableAction,
    TableDump,
};
use mydb::migrate;
use mydb::migrate::{check_target_table, migration_report, report_table, required_url, MigrationRun};
use mydb::script::{enter_line, result_footer, split_complete_sql, split_sql_script, statement_body, LineAction};
use mydb::update::{
    binary_name, check_report, find_source_dir, normalize_tag, release_asset, release_base,
    sha256_hex, validate_archive_listing, validate_source_dir, verify_sha256, ArchiveKind,
    ReleaseAsset, UpdateOptions,
};

fn strings(list: &[&str]) -> Vec<String> {
    list.iter().map(|s| s.to_string()).collect()
}

// Scripts

#[test]
fn splits_scripts_without_breaking_quoted_semicolons() {
    let statements = split_sql_script(
        "INSERT INTO notes VALUES ('actor;one'); SELECT `semi;column` FROM notes",
    )
    .unwrap();
    assert_eq!(statements.len(), 2);
    assert_eq!(statements[0], "INSERT INTO notes VALUES ('actor;one')");
    assert_eq!(statements[1], "SELECT `semi;column` FROM notes");
}

#[test]
fn escaped_quotes_do_not_end_a_quotation() {
    let statements = split_complete_sql("SELECT 'it\\'s; here'; ;; SELECT 2").unwrap();
    assert_eq!(statements, vec!["SELECT 'it\\'s; here'"]);
    let error = split_sql_script("SELECT 'open").unwrap_err();
    assert_eq!(error.to_string(), "unterminated ' quote");
    assert_eq!(statement_body("  SELECT 1 ;; "), "SELECT 1");
}

#[test]
fn lines_are_gathered_until_a_semicolon() {
    let mut pending = String::new();
    assert!(matches!(enter_line(&mut pending, "   "), LineAction::Ignore));
    assert!(matches!(enter_line(&mut pending, "SELECT 1"), LineAction::More));
    assert_eq!(pending, "SELECT 1\n");
    assert!(matches!(enter_line(&mut pending, "quit"), LineAction::More));
    match enter_line(&mut pending, ", 2;") {
        LineAction::Run(statements) => assert_eq!(statements, vec!["SELECT 1\nquit\n, 2"]),
        other => panic!("unexpected {other:?}"),
    }
    assert!(pending.is_empty());
    assert!(matches!(enter_line(&mut pending, " QUIT "), LineAction::Quit));
    assert!(matches!(enter_line(&mut pending, "Help"), LineAction::Help));
    assert!(matches!(enter_line(&mut pending, "status"), LineAction::Status));
    match enter_line(&mut pending, "SELECT 'x;") {
        LineAction::Refuse(message) => assert_eq!(message, "unterminated ' quote"),
        other => panic!("unexpected {other:?}"),
    }
    assert!(pending.is_empty());
}

#[test]
fn footers_count_rows() {
    assert_eq!(result_footer(2, 3, 0, None), "3 rows in set");
    assert_eq!(result_footer(0, 0, 4, Some(0)), "Query OK, 4 rows affected");
    assert_eq!(result_footer(0, 0, 1, Some(9)), "Query OK, 1 rows affected, insert id 9");
}

// Values

#[test]
fn renders_null_text_and_binary_values() {
    assert_eq!(format_mysql_value(&Cell::Null), "NULL");
    assert_eq!(format_mysql_value(&Cell::Bytes(b"player-1".to_vec())), "player-1");
    assert_eq!(format_mysql_value(&Cell::Bytes(vec![0, 0xff])), "0x00ff");
}

#[test]
fn dates_and_times_are_shown_as_short_as_they_are() {
    let date = |hour, micros| Cell::Date { year: 2026, month: 7, day: 5, hour, minute: 2, second: 3, micros };
    assert_eq!(format_mysql_value(&date(1, 0)), "2026-07-05 01:02:03");
    assert_eq!(format_mysql_value(&date(1, 40)), "2026-07-05 01:02:03.000040");
    assert_eq!(
        format_mysql_value(&Cell::Date { year: 26, month: 7, day: 5, hour: 0, minute: 0, second: 0, micros: 0 }),
        "0026-07-05"
    );
    assert_eq!(
        format_mysql_value(&Cell::Time { negative: true, days: 2, hours: 3, minutes: 4, seconds: 5, micros: 6 }),
        "-51:04:05.000006"
    );
    assert_eq!(format_mysql_value(&Cell::Bytes(b"a\tb".to_vec())), "0x610962");
    assert_eq!(
        format_row(&vec![Cell::Int(-3), Cell::UInt(4), Cell::Real { text: "1.5".to_string(), finite: true }]),
        "-3\t4\t1.5"
    );
}

#[test]
fn values_are_losslessly_encoded() {
    assert_eq!(migrate::value_sql(&Cell::Null).unwrap(), "NULL");
    assert_eq!(
        migrate::value_sql(&Cell::Bytes(vec![0, 39, 255])).unwrap(),
        "X'0027FF'"
    );
    assert_eq!(
        migrate::value_sql(&Cell::Date { year: 2026, month: 7, day: 15, hour: 12, minute: 3, second: 4, micros: 500 })
            .unwrap(),
        "'2026-07-15 12:03:04.000500'"
    );
}

#[test]
fn checksum_matches_source_types_and_target_text_values() {
    let source = vec![
        Cell::Int(7),
        Cell::Date { year: 2026, month: 7, day: 15, hour: 12, minute: 3, second: 4, micros: 500 },
        Cell::Null,
        Cell::Bytes(vec![0, 255]),
    ];
    let target = vec![
        Cell::Bytes(b"7".to_vec()),
        Cell::Bytes(b"2026-07-15 12:03:04.000500".to_vec()),
        Cell::Null,
        Cell::Bytes(vec![0, 255]),
    ];
    assert_eq!(migrate::hash_row(&source).unwrap(), migrate::hash_row(&target).unwrap());
}

#[test]
fn row_hash_matches_source_and_text_protocol_values() {
    let source = vec![
        Cell::Int(42),
        Cell::Date { year: 2026, month: 7, day: 15, hour: 1, minute: 2, second: 3, micros: 400 },
        Cell::Null,
        Cell::Bytes(vec![0, 255]),
    ];
    let target = vec![
        Cell::Bytes(b"42".to_vec()),
        Cell::Bytes(b"2026-07-15 01:02:03.000400".to_vec()),
        Cell::Null,
        Cell::Bytes(vec![0, 255]),
    ];
    assert_eq!(dump::hash_row(&source).unwrap(), dump::hash_row(&target).unwrap());
    assert_ne!(
        dump::hash_row(&vec![Cell::Bytes(vec![1]), Cell::Bytes(vec![])]).unwrap(),
        dump::hash_row(&vec![Cell::Bytes(vec![]), Cell::Bytes(vec![1])]).unwrap()
    );
}

#[test]
fn bytes_are_dumped_without_escape_ambiguity() {
    assert_eq!(quote_bytes(&[0, 39, 255]), "X'0027ff'");
}

#[test]
fn numbers_must_be_finite() {
    let infinite = Cell::Real { text: "inf".to_string(), finite: false };
    assert_eq!(
        dump::value_sql(&infinite).unwrap_err().to_string(),
        "cannot dump non-finite floating-point value"
    );
    assert_eq!(
        migrate::hash_row(&vec![infinite]).unwrap_err().to_string(),
        "cannot migrate non-finite floating-point value"
    );
}

#[test]
fn table_checksums_ignore_the_order_of_rows() {
    let a = dump::hash_row(&vec![Cell::Int(1)]).unwrap();
    let b = dump::hash_row(&vec![Cell::Int(2)]).unwrap();
    let forth = digest_table(&vec![a.clone(), b.clone()]);
    assert_eq!(forth, digest_table(&vec![b.clone(), a.clone()]));
    assert_ne!(forth, digest_table(&vec![a]));
    assert_eq!(forth.len(), 64);
    // Eight zero bytes: no rows.
    assert_eq!(
        digest_table(&vec![]),
        "af5570f5a1810b7af78caf4bc70a660f0df51e42baf91d4de5b2328de0e83dfc"
    );
}

// The agent API

#[test]
fn parses_content_length_agent_response() {
    let response = b"HTTP/1.1 200 OK\r\ncontent-type: application/json\r\ncontent-length: 16\r\n\r\n{\"healthy\":true}";
    let text = parse_agent_http_response(response).unwrap();
    let value: serde_json::Value = serde_json::from_str(&text).unwrap();
    assert_eq!(value["healthy"], true);
    assert_eq!(text, "{\n  \"healthy\": true\n}");
}

#[test]
fn parses_chunked_agent_response() {
    let response = b"HTTP/1.1 200 OK\r\ntransfer-encoding: chunked\r\n\r\n10\r\n{\"healthy\":true}\r\n0\r\n\r\n";
    let text = parse_agent_http_response(response).unwrap();
    let value: serde_json::Value = serde_json::from_str(&text).unwrap();
    assert_eq!(value["healthy"], true);
}

#[test]
fn broken_agent_responses_are_refused() {
    let refused = |bytes: &[u8]| parse_agent_http_response(bytes).unwrap_err().to_string();
    assert_eq!(refused(b"HTTP/1.1 200 OK\r\n"), "invalid Agent HTTP response");
    assert_eq!(refused(b"HTTP/1.1 nope\r\n\r\n"), "invalid Agent HTTP status");
    assert_eq!(
        refused(b"ok \xff\r\n\r\n"),
        String::from_utf8(b"ok \xff".to_vec()).unwrap_err().to_string()
    );
    assert_eq!(refused(b"HTTP/1.1 401 No\r\n\r\ndenied"), "Agent API returned HTTP 401: denied");
    assert_eq!(refused(b"HTTP/1.1 200 OK\r\n\r\n{"), "Agent API returned invalid JSON");
}

#[test]
fn chunks_are_put_together() {
    assert_eq!(decode_chunked(b"3\r\nabc\r\nA\r\n0123456789\r\n0\r\n\r\n").unwrap(), b"abc0123456789");
    assert!(decode_chunked(b"3\r\nab\r\n0\r\n").is_err());
    for bad in ["x", "", " + ", "ffffffffffffffffffff", "fffffffffffffffffg"] {
        let said = decode_chunked(format!("{bad}\r\n").as_bytes()).unwrap_err().to_string();
        assert_eq!(said, usize::from_str_radix(bad.trim(), 16).unwrap_err().to_string());
    }
    assert_eq!(
        decode_chunked(b"\xff\r\n").unwrap_err().to_string(),
        String::from_utf8(b"\xff".to_vec()).unwrap_err().to_string()
    );
    assert_eq!(decode_chunked(b"").unwrap_err().to_string(), "invalid chunked Agent response");
}

#[test]
fn requests_carry_their_length() {
    let request = agent_request(&AgentCommand::Ask { question: "why \"slow\"?\n".to_string() });
    assert_eq!(request.body.as_deref(), Some("{\"question\":\"why \\\"slow\\\"?\\n\"}"));
    let bytes = request_bytes(&request, "localhost", 4306, "root");
    let text = String::from_utf8(bytes).unwrap();
    assert!(text.starts_with("POST /api/v1/agent/ask HTTP/1.1\r\nHost: localhost:4306\r\nAuthorization: Bearer root\r\n"));
    assert!(text.contains("Content-Length: 30\r\n"));
    assert!(text.ends_with("}"));
    assert_eq!(agent_password(None, None), "root");
    assert_eq!(agent_password(None, Some("p".to_string())), "p");
}

#[test]
fn json_strings_are_those_of_serde() {
    for sample in ["plain", "quote \" slash \\ tab \t bell \u{7} del \u{7f} é 界", ""] {
        assert_eq!(json_string(sample), serde_json::to_string(sample).unwrap());
    }
    let controls: String = (0u8..32).map(|b| b as char).collect();
    assert_eq!(json_string(&controls), serde_json::to_string(&controls).unwrap());
}

// Updates

fn linux_asset() -> ReleaseAsset {
    ReleaseAsset {
        archive_name: "mydb-linux-x86_64.tar.gz".to_string(),
        installer_name: "install.sh".to_string(),
        kind: ArchiveKind::TarGz,
    }
}

#[test]
fn normalizes_safe_release_tags() {
    assert_eq!(normalize_tag("latest").expect("latest tag"), "latest");
    assert_eq!(normalize_tag("0.1.5").expect("version tag"), "v0.1.5");
    assert_eq!(normalize_tag("v0.1.5").expect("version tag"), "v0.1.5");
    assert!(normalize_tag("v0.1.5/../../secret").is_err());
}

#[test]
fn tags_do_not_change_twice() {
    for version in ["latest", " LATEST ", "0.1.5", "v2"] {
        let tag = normalize_tag(version).unwrap();
        assert_eq!(normalize_tag(&tag).unwrap(), tag);
    }
    assert!(normalize_tag("").is_err());
    assert!(normalize_tag(&"1".repeat(65)).is_err());
    let longest = normalize_tag(&"1".repeat(64)).unwrap();
    assert!(normalize_tag(&longest).is_err());
}

#[test]
fn verifies_checksum_sidecar_without_using_filename() {
    let package = b"mydb-update-fixture";
    let expected = sha256_hex(package);
    let sidecar = format!("{expected} another-name.tar.gz\n");
    assert_eq!(verify_sha256(package, &sidecar, "package.tar.gz").expect("verify checksum"), expected);
    assert_eq!(
        verify_sha256(package, &expected.to_uppercase(), "package.tar.gz").unwrap(),
        expected
    );
    assert!(verify_sha256(b"changed", &sidecar, "package.tar.gz").is_err());
    assert!(verify_sha256(package, " \n", "package.tar.gz").is_err());
    assert!(verify_sha256(package, "abc", "package.tar.gz").is_err());
}

#[test]
fn checksums_are_sha_256() {
    assert_eq!(
        sha256_hex(b"abc"),
        "ba7816bf8f01cfea414140de5dae2223b00361a396177a9cb410ff61f20015ad"
    );
}

#[test]
fn rejects_legacy_router_and_missing_installer() {
    let asset = linux_asset();
    let mut files = strings(&["mydb-server", "mydb-cli", "mydb", "mydb-migrate", "mydbdump"]);
    assert!(validate_source_dir("package", &asset, false, &files, &files).is_err());
    files.push("install.sh".to_string());
    assert!(validate_source_dir("package", &asset, false, &files, &files).is_ok());
    let mut present = files.clone();
    present.push("mydb-router".to_string());
    assert!(validate_source_dir("package", &asset, false, &files, &present).is_err());
}

#[test]
fn rejects_archive_path_traversal() {
    assert!(validate_archive_listing("./\nmydb-server\n../outside\n").is_err());
    assert!(validate_archive_listing("/absolute/path\n").is_err());
    assert!(validate_archive_listing("mydb-server\nmydb-cli\n").is_ok());
}

#[test]
fn accepts_archive_root_entry() {
    assert!(validate_archive_listing("./\n").is_ok());
    assert!(validate_archive_listing(".\\\n").is_ok());
    assert!(validate_archive_listing("./\\346\\200\\247\\350.md\n").is_ok());
}

#[test]
fn archives_cannot_climb_or_change_drives() {
    assert!(validate_archive_listing("a/../../b").is_err());
    assert!(validate_archive_listing("a\\..\\b").is_err());
    assert!(validate_archive_listing("C:evil").is_err());
    assert!(validate_archive_listing("\\share").is_err());
    assert!(validate_archive_listing("a/..b/c..").is_ok());
}

#[test]
fn platforms_have_their_packages() {
    let asset = release_asset("aarch64", "macos").unwrap();
    assert_eq!(asset.archive_name, "mydb-macos-aarch64.tar.gz");
    assert_eq!(asset.kind, ArchiveKind::TarGz);
    assert_eq!(release_asset("x86_64", "windows").unwrap().archive_name, "mydb-windows-x86_64.zip");
    assert!(release_asset("riscv64", "linux").is_err());
    assert!(release_asset("x86_64", "plan9").is_err());
    assert_eq!(binary_name("mydb", true), "mydb.exe");
    assert_eq!(find_source_dir(true, &vec![], false).unwrap(), None);
    assert_eq!(find_source_dir(false, &vec![false, true], false).unwrap(), Some(1));
    assert!(find_source_dir(false, &vec![false], false).is_err());
    assert_eq!(
        release_base("v1"),
        "https://github.com/neko233-com/mydb/releases/download/v1"
    );
    assert_eq!(
        check_report("latest", "a.zip", "00"),
        "Update available: latest (a.zip, SHA-256 00)"
    );
    let options = UpdateOptions { version: "latest".to_string(), check: true, install_dir: None, service_name: None };
    assert!(options.check);
}

// Dumps

fn dumped(table: &str, batch_size: usize, values: &[i64]) -> TableDump {
    let mut dump = TableDump::new(table, &strings(&["id", "odd`name"]), batch_size);
    for value in values {
        dump.add_row(&vec![Cell::Int(*value), Cell::Null]).unwrap();
    }
    dump.flush();
    dump
}

#[test]
fn rows_are_written_in_batches() {
    let dump = dumped("t", 2, &[1, 2, 3]);
    assert_eq!(
        dump.sql,
        "INSERT INTO `t` (`id`,`odd``name`) VALUES (1,NULL),(2,NULL);\nINSERT INTO `t` (`id`,`odd``name`) VALUES (3,NULL);\n"
    );
    assert_eq!(dump.content().0, 3);
}

#[test]
fn data_files_give_back_their_statements() {
    let dump = dumped("t", 2, &[1, 2, 3]);
    let stream = pack(&dump.sql, 3).unwrap();
    assert_ne!(stream, dump.sql.as_bytes());
    let statements = unpack(&stream).unwrap();
    assert_eq!(statements.len(), 2);
    assert_eq!(statements[1], "INSERT INTO `t` (`id`,`odd``name`) VALUES (3,NULL);");
    assert!(unpack(b"no stream").is_err());
}

#[test]
fn dumped_tables_verify_and_unchanged_ones_have_no_file() {
    let dump = dumped("t", 10, &[1, 2]);
    let stream = pack(&dump.sql, 3).unwrap();
    let entry = settle_table(&dump, "CREATE TABLE t".to_string(), &stream, None);
    assert_eq!(entry.action, TableAction::Replace);
    assert_eq!(entry_file(&entry).unwrap(), Some(data_file_name("t")));
    assert!(check_data(&entry, &stream).is_ok());
    let mut broken = stream.clone();
    broken[0] ^= 1;
    assert!(check_data(&entry, &broken).unwrap_err().to_string().contains("checksum mismatch"));
    let mut cut = entry.clone();
    cut.uncompressed_bytes += 1;
    assert!(check_data(&cut, &stream).unwrap_err().to_string().contains("size mismatch"));

    let again = settle_table(&dump, "CREATE TABLE t".to_string(), &stream, Some(&entry));
    assert_eq!(again.action, TableAction::Unchanged);
    assert_eq!(entry_file(&again).unwrap(), None);
    let changed = settle_table(&dump, "CREATE TABLE t2".to_string(), &stream, Some(&entry));
    assert_eq!(changed.action, TableAction::Replace);
    let mut lost = entry.clone();
    lost.data_file = None;
    assert!(entry_file(&lost).is_err());
    assert!(check_restored(&entry, entry.rows, &entry.content_checksum).is_ok());
    assert!(check_restored(&entry, entry.rows + 1, &entry.content_checksum).is_err());
}

#[test]
fn manifests_are_sorted_and_know_what_is_gone() {
    let run = |from: Option<&str>| BackupRun {
        version: "0.1.0".to_string(),
        database: "game".to_string(),
        created_at: "2026-01-01T00:00:00.000Z".to_string(),
        duration_ms: 12,
        allow_non_transactional: false,
        incremental_from: from.map(|s| s.to_string()),
    };
    let entry = |name: &str| {
        let dump = dumped(name, 10, &[1]);
        let stream = pack(&dump.sql, 3).unwrap();
        settle_table(&dump, format!("CREATE TABLE {name}"), &stream, None)
    };
    let base = assemble_manifest(run(None), None, &vec![entry("b"), entry("c"), entry("a")]);
    assert_eq!(base.kind, BackupKind::Full);
    let names: Vec<&str> = base.tables.iter().map(|t| t.name.as_str()).collect();
    assert_eq!(names, vec!["a", "b", "c"]);
    assert_eq!(base.tool, "mydbdump 0.1.0");
    assert_eq!(backup_summary(&base), "full backup complete: 3 tables, 3 changed, 0 dropped, 12 ms");
    assert!(check_format(&base).is_ok());
    assert_eq!(find_prior(&base.tables, "b").unwrap().name, "b");

    let prior = find_prior(&base.tables, "b");
    let dump_b = dumped("b", 10, &[1]);
    let stream = pack(&dump_b.sql, 3).unwrap();
    let same = settle_table(&dump_b, "CREATE TABLE b".to_string(), &stream, prior);
    let next = assemble_manifest(run(Some("base.json")), Some(&base), &vec![same]);
    assert_eq!(next.kind, BackupKind::Incremental);
    assert_eq!(next.dropped_tables, vec!["a", "c"]);
    assert_eq!(next.parent_state.len(), 3);
    let options = RestoreOptions { replace_tables: true, verify: true, skip_chain_check: false };
    assert_eq!(
        plan_restore(&next, options),
        vec![RestoreStep::CheckParent, RestoreStep::DropGone(0), RestoreStep::DropGone(1)]
    );
    let plan = plan_restore(&base, options);
    assert_eq!(plan.len(), 12);
    assert_eq!(plan[0], RestoreStep::DropTable(0));
    assert_eq!(plan[3], RestoreStep::CheckTable(0));
    let timid = RestoreOptions { replace_tables: false, verify: true, skip_chain_check: false };
    assert_eq!(plan_restore(&base, timid), vec![RestoreStep::Refuse(0)]);
}

#[test]
fn only_transactional_tables_are_dumped() {
    let table = |name: &str, engine: &str| SourceTable { name: name.to_string(), engine: engine.to_string() };
    let tables = vec![table("a", "innodb"), table("b", "MyISAM"), table("c", "UNKNOWN")];
    let error = check_engines(&tables, false).unwrap_err().to_string();
    assert!(error.contains("unsupported: b (MyISAM), c (UNKNOWN). Use"));
    assert!(check_engines(&tables, true).is_ok());
    let chosen = dump::choose_tables(tables, &strings(&["c", "a"])).unwrap();
    assert_eq!(chosen[0].name, "c");
    assert_eq!(chosen[1].engine, "innodb");
    let error = dump::choose_tables(chosen, &strings(&["z"])).unwrap_err().to_string();
    assert_eq!(error, "source table `z` does not exist");
    assert!(dump::check_batch_size(0).is_err());
    assert!(dump::is_mydb("8.0.36-mydb"));
    assert_eq!(dump::on_name("USE ", "a`b"), "USE `a``b`");
    assert!(dump::tables_query("g").contains("TABLE_SCHEMA=X'67' AND"));
}

// Migration

#[test]
fn reports_tell_good_copies_from_bad() {
    let a = migrate::hash_row(&vec![Cell::Int(1)]).unwrap();
    let b = migrate::hash_row(&vec![Cell::Int(2)]).unwrap();
    let good = report_table("t", 2, 2, &vec![a.clone(), b.clone()], &vec![b.clone(), a.clone()], 5);
    assert!(good.verified);
    let lost = report_table("t", 2, 2, &vec![a.clone(), b.clone()], &vec![a.clone()], 5);
    assert!(!lost.verified);
    let wrong = report_table("t", 1, 1, &vec![a], &vec![b], 5);
    assert!(!wrong.verified);
    let run = MigrationRun {
        database: "game".to_string(),
        started_at: "s".to_string(),
        finished_at: "f".to_string(),
        duration_ms: 9,
        schema_only: false,
        data_only: false,
    };
    let report = migration_report(run, vec![good, lost]);
    assert!(!report.verified);
    assert_eq!(report.tables.len(), 2);
    assert!(migrate::schema_report("t").verified);
}

#[test]
fn batches_are_one_statement() {
    let columns = strings(&["id", "name"]);
    let rows = vec![
        vec![Cell::Int(1), Cell::Bytes(b"a".to_vec())],
        vec![Cell::Int(2), Cell::Null],
    ];
    assert_eq!(
        migrate::batch_sql("t", &columns, &rows).unwrap(),
        "INSERT INTO `t` (`id`,`name`) VALUES (1,X'61'),(2,NULL)"
    );
    let short = vec![vec![Cell::Int(1)]];
    assert_eq!(
        migrate::batch_sql("t", &columns, &short).unwrap_err().to_string(),
        "source row column count changed during migration"
    );
}

#[test]
fn targets_are_dropped_only_on_request() {
    let present = strings(&["a"]);
    assert_eq!(check_target_table("b", &present, false).unwrap(), false);
    assert_eq!(check_target_table("a", &present, true).unwrap(), true);
    assert!(check_target_table("a", &present, false).is_err());
    assert_eq!(migrate::choose_tables(strings(&["a", "b"]), &vec![]).unwrap(), strings(&["a", "b"]));
    assert_eq!(migrate::choose_tables(strings(&["a", "b"]), &strings(&["b"])).unwrap(), strings(&["b"]));
    assert!(migrate::choose_tables(strings(&["a"]), &strings(&["b"])).is_err());
    assert!(migrate::check_columns("t", &vec![]).is_err());
    assert_eq!(required_url(None, Some("u".to_string()), "V", "--f").unwrap(), "u");
    assert_eq!(required_url(None, None, "V", "--f").unwrap_err().to_string(), "missing --f or V");
    assert!(migrate::columns_query("g", "t").ends_with("TABLE_NAME=X'74' ORDER BY ORDINAL_POSITION"));
}

// The benchmark

#[test]
fn percentiles_are_taken_in_order() {
    let values: Vec<u128> = vec![50, 10, 40, 20, 30];
    assert_eq!(percentile_us(&values, 50), 30);
    assert_eq!(percentile_us(&values, 95), 40);
    assert_eq!(percentile_us(&values, 100), 50);
    assert_eq!(percentile_us(&values, 0), 10);
    assert_eq!(percentile_us(&vec![], 99), 0);
}

#[test]
fn batches_cover_every_write() {
    assert_eq!(
        plan_batches(5, 2, 2),
        vec![
            Batch { start: 0, end: 2, reconnect: false },
            Batch { start: 2, end: 4, reconnect: false },
            Batch { start: 4, end: 5, reconnect: true },
        ]
    );
    assert!(plan_batches(0, 2, 0).is_empty());
    assert_eq!(plan_batches(usize::MAX, usize::MAX, 0).len(), 1);
}

#[test]
fn benchmark_statements_are_exact() {
    assert_eq!(benchmark_table_name(0, 1), "game_events");
    assert_eq!(benchmark_table_name(3, 4), "game_events_3");
    assert_eq!(hex_literal(&payload(252, 2)), "X'0101'");
    assert_eq!(
        batch_sql("t", 7, 1, 3, "X''", false),
        "INSERT INTO `t`(actor_id,seq,payload) VALUES (7,1,X''),(7,2,X'')"
    );
    assert_eq!(
        batch_sql("t", 7, 1, 2, "X''", true),
        "INSERT INTO `t`(actor_id,seq,payload) VALUES (7,0,X'') ON DUPLICATE KEY UPDATE payload=VALUES(payload)"
    );
    assert_eq!(expected_rows(WriteMode::ActorBatchUpsert, 3, 10), 3);
    assert_eq!(expected_rows(WriteMode::Transaction, 3, 10), 30);
    assert!(check_rows(3, 3).is_ok());
    assert_eq!(
        check_rows(3, 4).unwrap_err().to_string(),
        "row verification failed: expected 3, got 4"
    );
    assert!(check_cleanup(&database_name(1, 2)).is_ok());
    assert!(check_cleanup("game").is_err());
    assert!(check_sizes(1, 1, 0).is_err());
    assert!(check_sizes(1, 0, 1).is_err());
    assert!(check_sizes(0, 1, 1).is_err());
}
