//! The server's rules: secrets, agent answers, metrics and backups.
use mydb::agent::{
    answer_agent_question, classify_agent_question, debug_sql, diagnose_advice, is_healthy,
    AgentIntent, AuditSnapshot, WireStatsSnapshot,
};
use mydb::backup::{
    backup_id_is_safe, check_chain, clear_entry, full_metadata, incremental_metadata,
    latest_backup, new_backup_id, plan_restore, refuse_delete, resolve_restore_target_lsn,
    settle_metadata, validate_backup_id, ArchiveInfo, BackupMetadata, ChainWalk, GroupTime,
    RestoreStep,
};
use mydb::config::ServerConfig;
use mydb::manager::StorageStatsSnapshot;
use mydb::metrics::metrics;
use mydb::security::{
    apply_runtime_config, authorize, authorize_agent, constant_time_eq, redacted_config,
    runtime_worker_threads, validate_runtime_security, validate_strong_secret,
};

fn quiet_wire() -> WireStatsSnapshot {
    WireStatsSnapshot {
        active_connections: 1,
        total_connections: 2,
        queries: 3,
        query_errors: 0,
        query_execute_micros: 0,
        query_response_micros: 0,
        lock_waits: 0,
        lock_timeouts: 0,
        deadlocks: 0,
        row_lock_acquires: 0,
        table_lock_acquires: 0,
        active_locks: 0,
    }
}

fn busy_storage() -> StorageStatsSnapshot {
    StorageStatsSnapshot {
        uptime_seconds: 1,
        reads: 0,
        writes: 20,
        errors: 0,
        actor_queue_depth: 4,
        buffer_pool_pages: 2,
        group_commits: 10,
        grouped_requests: 20,
        checkpoints: 1,
        checkpoint_errors: 0,
        prepare_validation_micros: 100,
        wal_sync_micros: 1_000,
        apply_micros: 200,
        checkpoint_micros: 300,
    }
}

#[test]
fn constant_time_token_comparison_requires_exact_match() {
    assert!(constant_time_eq(b"Bearer production-token", b"Bearer production-token"));
    assert!(!constant_time_eq(b"Bearer production-token", b"Bearer production-tokeX"));
    assert!(!constant_time_eq(b"Bearer production-token", b"Bearer production"));
}

#[test]
fn secure_transport_cannot_claim_tls_without_tls_listener() {
    let mut config = ServerConfig::default();
    assert!(validate_runtime_security(&config).is_ok());
    config.security.require_secure_transport = true;
    assert!(validate_runtime_security(&config)
        .unwrap_err()
        .to_string()
        .contains("tls_cert"));
}

#[test]
fn strong_secret_enforcement_rejects_default_credentials() {
    let mut config = ServerConfig::default();
    config.security.enforce_strong_passwords = true;
    assert!(validate_runtime_security(&config).is_err());

    config.security.default_password = "mysql-root-secret-for-production".to_string();
    config.http.admin_password = "http-admin-secret-for-production".to_string();
    assert!(validate_runtime_security(&config).is_ok());
}

#[test]
fn config_response_never_contains_secrets() {
    let config = ServerConfig::default();
    let redacted = redacted_config(&config);
    assert_eq!(redacted.security.default_password, "<redacted>");
    assert_eq!(redacted.http.admin_password, "<redacted>");
}

#[test]
fn runtime_worker_count_honors_explicit_configuration() {
    assert_eq!(runtime_worker_threads(1, 4), 1);
    assert_eq!(runtime_worker_threads(8, 4), 8);
    assert!(runtime_worker_threads(0, 4) >= 1);
    assert!(runtime_worker_threads(0, 0) >= 1);
}

#[test]
fn classifies_english_and_chinese_agent_questions() {
    assert_eq!(
        classify_agent_question("why is write latency high?"),
        AgentIntent::WriteLatency
    );
    assert_eq!(
        classify_agent_question("最近有哪些慢 SQL？"),
        AgentIntent::SlowQueries
    );
    assert_eq!(
        classify_agent_question("断线后可以自动重连吗"),
        AgentIntent::Connections
    );
    assert_eq!(
        classify_agent_question("检查磁盘孤儿文件"),
        AgentIntent::Storage
    );
    assert_eq!(
        classify_agent_question("这个句子没有已知意图"),
        AgentIntent::Unknown
    );
}

#[test]
fn questions_are_understood_in_capitals() {
    assert_eq!(classify_agent_question("  DEADLOCK?  "), AgentIntent::Locks);
    assert_eq!(classify_agent_question("   "), AgentIntent::Health);
}

#[test]
fn write_latency_answer_identifies_dominant_phase() {
    let answer = answer_agent_question(
        AgentIntent::WriteLatency,
        quiet_wire(),
        busy_storage(),
        0,
        None,
    );
    assert!(answer.contains("dominant phase: WAL fsync"));
    assert!(answer.contains("average prepare/WAL/apply/checkpoint = 10/100/20/30"));
}

#[test]
fn there_is_always_some_advice() {
    assert_eq!(diagnose_advice(0, 0, 0, 0).len(), 1);
    assert!(diagnose_advice(0, 1, 0, 0)[0].contains("storage errors"));
    let audit = AuditSnapshot { healthy: true, accepted: 0, rejected: 0 };
    assert!(is_healthy(audit, busy_storage()));
    assert!(!debug_sql("SELECT * FROM t").1.is_empty());
}

#[test]
fn metrics_name_their_samples() {
    let audit = AuditSnapshot { healthy: true, accepted: 5, rejected: 0 };
    let text = metrics(7, quiet_wire(), audit, busy_storage());
    assert!(text.contains("# TYPE"));
    assert!(text.lines().any(|line| line.ends_with(" 7")));
}

#[test]
fn bearer_tokens_are_compared_whole() {
    assert!(authorize("secret", Some("Bearer secret")));
    assert!(!authorize("secret", Some("Bearer secre")));
    assert!(!authorize("secret", None));
    let mut config = ServerConfig::default();
    config.agent.enabled = false;
    assert!(authorize_agent(&config, Some("Bearer root")).is_some());
}

#[test]
fn weak_secrets_are_named() {
    assert!(validate_strong_secret("root", "short").is_err());
    assert!(validate_strong_secret("root", "long enough and not a default").is_ok());
}

#[test]
fn a_shown_config_can_be_sent_back() {
    let config = ServerConfig::default();
    let shown = redacted_config(&config);
    let applied = apply_runtime_config(&config, shown).unwrap();
    assert_eq!(applied.security.default_password, config.security.default_password);
    assert_eq!(applied.http.admin_password, config.http.admin_password);
}

fn full(id: &str, to_lsn: u64) -> BackupMetadata {
    full_metadata(id, "2026-01-01T00:00:00Z", to_lsn)
}

fn increment(base: &BackupMetadata, id: &str, to_lsn: u64) -> BackupMetadata {
    incremental_metadata(base, id, "2026-01-01T00:01:00Z", to_lsn).unwrap()
}

#[test]
fn backup_identifiers_are_safe_and_new() {
    let a = new_backup_id("full");
    let b = new_backup_id("full");
    assert!(a.starts_with("full-"));
    assert!(backup_id_is_safe(&a));
    assert_ne!(a, b);
    assert_eq!(validate_backup_id("../etc"), Some(400));
    assert_eq!(validate_backup_id("full-1"), None);
}

#[test]
fn chains_are_walked_to_the_full_backup() {
    let base = full("full-test", 2);
    let top = increment(&base, "incremental-test", 4);
    let mut walk = ChainWalk::start("incremental-test");
    assert_eq!(walk.advance(top).unwrap().as_deref(), Some("full-test"));
    assert_eq!(walk.advance(base).unwrap(), None);
    let chain = walk.finish();
    assert_eq!(chain[0].id, "full-test");
    assert_eq!(chain[1].id, "incremental-test");
    let archives = vec![Ok(ArchiveInfo {
        record_count: chain[1].wal_records,
        bytes: chain[1].wal_bytes,
    })];
    assert!(check_chain(&chain, true, 2, &archives).is_ok());
    assert!(check_chain(&chain, false, 2, &archives).is_err());
    assert!(check_chain(&chain, true, 3, &archives).is_err());
}

#[test]
fn a_chain_that_turns_back_is_refused() {
    let base = full("a", 1);
    let mut one = increment(&base, "b", 2);
    one.parent_id = Some("b".to_string());
    let mut walk = ChainWalk::start("b");
    assert!(walk.advance(one).is_err());
}

#[test]
fn restores_stop_at_the_requested_number() {
    let base = full("full-test", 2);
    let middle = increment(&base, "i1", 4);
    let last = increment(&middle, "i2", 9);
    let chain = vec![base, middle, last];
    assert_eq!(
        plan_restore(&chain, 2, None).unwrap(),
        vec![RestoreStep { index: 1, upto: None }, RestoreStep { index: 2, upto: None }]
    );
    assert_eq!(
        plan_restore(&chain, 2, Some(6)).unwrap(),
        vec![RestoreStep { index: 1, upto: None }, RestoreStep { index: 2, upto: Some(6) }]
    );
    assert_eq!(plan_restore(&chain, 2, Some(2)).unwrap(), vec![]);
    assert!(plan_restore(&chain, 2, Some(10)).is_err());
    assert!(plan_restore(&chain, 1, None).is_err());
    assert!(plan_restore(&vec![], 1, None).is_err());
}

#[test]
fn points_in_time_stop_between_groups() {
    let base = full("full-pitr", 2);
    let top = increment(&base, "incremental-pitr", 6);
    let chain = vec![base, top];
    let groups = vec![Ok(vec![
        GroupTime { lsn: 3, committed: Some(1_767_225_600_500) },
        GroupTime { lsn: 5, committed: Some(1_767_225_602_000) },
    ])];
    let target = resolve_restore_target_lsn(&chain, Some("2026-01-01T00:00:01Z"), &groups).unwrap();
    assert_eq!(target, 3);
    assert_eq!(resolve_restore_target_lsn(&chain, None, &groups).unwrap(), 6);
    assert!(resolve_restore_target_lsn(&chain, Some("yesterday"), &groups).is_err());
}

#[test]
fn a_backup_in_use_is_not_deleted() {
    let base = full("a", 1);
    let top = increment(&base, "b", 2);
    let list = vec![base, top];
    assert_eq!(refuse_delete("a", true, &list, None), Some(409));
    assert_eq!(refuse_delete("b", true, &list, Some("b")), Some(409));
    assert_eq!(refuse_delete("b", true, &list, None), None);
    assert_eq!(refuse_delete("c", false, &list, None), Some(404));
    assert_eq!(latest_backup(&list), Some(1));
    assert_eq!(latest_backup(&vec![]), None);
}

#[test]
fn metadata_must_match_its_directory() {
    assert!(settle_metadata("other", full("full-test", 2), 2, 0).is_err());
    assert!(settle_metadata("full-test", full("full-test", 2), 2, 0).is_ok());
}

#[test]
fn clearing_spares_the_marker_and_the_backups() {
    assert_eq!(clear_entry(true, "/data/pending", "/data", None).unwrap(), false);
    assert_eq!(clear_entry(false, "/data/game", "/data", Some("/backups")).unwrap(), true);
    assert_eq!(clear_entry(false, "/data/b", "/data", Some("/data/b/all")).unwrap(), false);
    assert!(clear_entry(false, "/database", "/data", None).is_err());
}
