//! The server's configuration: its sections, their defaults, and what the environment overrides.
use crate::error;
use crate::error::{DbError, DbResult};
use crate::num;
use crate::text;
use vstd::prelude::*;

verus! {

fn copy_option(s: &Option<String>) -> (r: Option<String>)
    ensures
        r.deep_view() == s.deep_view(),
{
    match s {
        Some(v) => Some(text::copy_text(v.as_str())),
        None => None,
    }
}

fn same_option(a: &Option<String>, b: &Option<String>) -> (r: bool)
    ensures
        r == (a.deep_view() == b.deep_view()),
{
    match (a, b) {
        (None, None) => true,
        (Some(x), Some(y)) => text::text_equal(x.as_str(), y.as_str()),
        _ => false,
    }
}

// ---------------------------------------------------------------------------------------------
// Sections
// ---------------------------------------------------------------------------------------------
/// The MySQL listener.
#[derive(Debug)]
pub struct ServerSection {
    pub host: String,
    pub port: u16,
    pub max_connections: u32,
    pub thread_count: u32,
    pub connect_timeout: u64,
    pub interactive_timeout: u64,
}

#[verifier::ext_equal]
pub struct ServerModel {
    pub host: Seq<char>,
    pub port: u16,
    pub max_connections: u32,
    pub thread_count: u32,
    pub connect_timeout: u64,
    pub interactive_timeout: u64,
}

impl View for ServerSection {
    type V = ServerModel;

    open spec fn view(&self) -> ServerModel {
        ServerModel {
            host: self.host@,
            port: self.port,
            max_connections: self.max_connections,
            thread_count: self.thread_count,
            connect_timeout: self.connect_timeout,
            interactive_timeout: self.interactive_timeout,
        }
    }
}

impl Clone for ServerSection {
    fn clone(&self) -> (r: Self)
        ensures
            r@ == self@,
    {
        ServerSection {
            host: text::copy_text(self.host.as_str()),
            port: self.port,
            max_connections: self.max_connections,
            thread_count: self.thread_count,
            connect_timeout: self.connect_timeout,
            interactive_timeout: self.interactive_timeout,
        }
    }
}

pub open spec fn default_server() -> ServerModel {
    ServerModel {
        host: "0.0.0.0"@,
        port: 3306,
        max_connections: 1000,
        thread_count: 0,
        connect_timeout: 10,
        interactive_timeout: 28800,
    }
}

impl Default for ServerSection {
    fn default() -> (r: Self)
        ensures
            r@ == default_server(),
    {
        ServerSection {
            host: text::copy_text("0.0.0.0"),
            port: 3306,
            max_connections: 1000,
            thread_count: 0,
            connect_timeout: 10,
            interactive_timeout: 28800,
        }
    }
}

impl ServerSection {
    /// Whether two sections say the same.
    pub fn same(&self, other: &Self) -> (r: bool)
        ensures
            r == (self@ == other@),
    {
        text::text_equal(self.host.as_str(), other.host.as_str())
            && self.port == other.port
            && self.max_connections == other.max_connections
            && self.thread_count == other.thread_count
            && self.connect_timeout == other.connect_timeout
            && self.interactive_timeout == other.interactive_timeout
    }
}

/// The management listener.
#[derive(Debug)]
pub struct HttpSection {
    pub port: u16,
    pub host: String,
    pub admin_username: String,
    pub admin_password: String,
    pub enabled: bool,
}

#[verifier::ext_equal]
pub struct HttpModel {
    pub port: u16,
    pub host: Seq<char>,
    pub admin_username: Seq<char>,
    pub admin_password: Seq<char>,
    pub enabled: bool,
}

impl View for HttpSection {
    type V = HttpModel;

    open spec fn view(&self) -> HttpModel {
        HttpModel {
            port: self.port,
            host: self.host@,
            admin_username: self.admin_username@,
            admin_password: self.admin_password@,
            enabled: self.enabled,
        }
    }
}

impl Clone for HttpSection {
    fn clone(&self) -> (r: Self)
        ensures
            r@ == self@,
    {
        HttpSection {
            port: self.port,
            host: text::copy_text(self.host.as_str()),
            admin_username: text::copy_text(self.admin_username.as_str()),
            admin_password: text::copy_text(self.admin_password.as_str()),
            enabled: self.enabled,
        }
    }
}

pub open spec fn default_http() -> HttpModel {
    HttpModel {
        port: 4306,
        host: "127.0.0.1"@,
        admin_username: "root"@,
        admin_password: "root"@,
        enabled: true,
    }
}

impl Default for HttpSection {
    fn default() -> (r: Self)
        ensures
            r@ == default_http(),
    {
        HttpSection {
            port: 4306,
            host: text::copy_text("127.0.0.1"),
            admin_username: text::copy_text("root"),
            admin_password: text::copy_text("root"),
            enabled: true,
        }
    }
}

impl HttpSection {
    /// Whether two sections say the same.
    pub fn same(&self, other: &Self) -> (r: bool)
        ensures
            r == (self@ == other@),
    {
        self.port == other.port
            && text::text_equal(self.host.as_str(), other.host.as_str())
            && text::text_equal(self.admin_username.as_str(), other.admin_username.as_str())
            && text::text_equal(self.admin_password.as_str(), other.admin_password.as_str())
            && self.enabled == other.enabled
    }
}

/// Where and how data is stored. `group_commit_window_us` is the longest time that a write waits for
/// others before they are logged together.
#[derive(Debug)]
pub struct StorageSection {
    pub data_dir: String,
    pub engine: String,
    pub buffer_pool_size: String,
    pub log_file_size: String,
    pub page_size: u32,
    pub group_commit_window_us: u64,
}

#[verifier::ext_equal]
pub struct StorageModel {
    pub data_dir: Seq<char>,
    pub engine: Seq<char>,
    pub buffer_pool_size: Seq<char>,
    pub log_file_size: Seq<char>,
    pub page_size: u32,
    pub group_commit_window_us: u64,
}

impl View for StorageSection {
    type V = StorageModel;

    open spec fn view(&self) -> StorageModel {
        StorageModel {
            data_dir: self.data_dir@,
            engine: self.engine@,
            buffer_pool_size: self.buffer_pool_size@,
            log_file_size: self.log_file_size@,
            page_size: self.page_size,
            group_commit_window_us: self.group_commit_window_us,
        }
    }
}

impl Clone for StorageSection {
    fn clone(&self) -> (r: Self)
        ensures
            r@ == self@,
    {
        StorageSection {
            data_dir: text::copy_text(self.data_dir.as_str()),
            engine: text::copy_text(self.engine.as_str()),
            buffer_pool_size: text::copy_text(self.buffer_pool_size.as_str()),
            log_file_size: text::copy_text(self.log_file_size.as_str()),
            page_size: self.page_size,
            group_commit_window_us: self.group_commit_window_us,
        }
    }
}

pub open spec fn default_storage() -> StorageModel {
    StorageModel {
        data_dir: "/var/lib/mydb"@,
        engine: "neko233"@,
        buffer_pool_size: "1G"@,
        log_file_size: "256M"@,
        page_size: 16384,
        group_commit_window_us: 250,
    }
}

impl Default for StorageSection {
    fn default() -> (r: Self)
        ensures
            r@ == default_storage(),
    {
        StorageSection {
            data_dir: text::copy_text("/var/lib/mydb"),
            engine: text::copy_text("neko233"),
            buffer_pool_size: text::copy_text("1G"),
            log_file_size: text::copy_text("256M"),
            page_size: 16384,
            group_commit_window_us: 250,
        }
    }
}

impl StorageSection {
    /// Whether two sections say the same.
    pub fn same(&self, other: &Self) -> (r: bool)
        ensures
            r == (self@ == other@),
    {
        text::text_equal(self.data_dir.as_str(), other.data_dir.as_str())
            && text::text_equal(self.engine.as_str(), other.engine.as_str())
            && text::text_equal(self.buffer_pool_size.as_str(), other.buffer_pool_size.as_str())
            && text::text_equal(self.log_file_size.as_str(), other.log_file_size.as_str())
            && self.page_size == other.page_size
            && self.group_commit_window_us == other.group_commit_window_us
    }
}

/// Memory limits.
#[derive(Debug)]
pub struct MemorySection {
    pub max_memory: String,
    pub query_cache_size: String,
    pub sort_buffer_size: String,
}

#[verifier::ext_equal]
pub struct MemoryModel {
    pub max_memory: Seq<char>,
    pub query_cache_size: Seq<char>,
    pub sort_buffer_size: Seq<char>,
}

impl View for MemorySection {
    type V = MemoryModel;

    open spec fn view(&self) -> MemoryModel {
        MemoryModel {
            max_memory: self.max_memory@,
            query_cache_size: self.query_cache_size@,
            sort_buffer_size: self.sort_buffer_size@,
        }
    }
}

impl Clone for MemorySection {
    fn clone(&self) -> (r: Self)
        ensures
            r@ == self@,
    {
        MemorySection {
            max_memory: text::copy_text(self.max_memory.as_str()),
            query_cache_size: text::copy_text(self.query_cache_size.as_str()),
            sort_buffer_size: text::copy_text(self.sort_buffer_size.as_str()),
        }
    }
}

pub open spec fn default_memory() -> MemoryModel {
    MemoryModel {
        max_memory: "1G"@,
        query_cache_size: "64M"@,
        sort_buffer_size: "4M"@,
    }
}

impl Default for MemorySection {
    fn default() -> (r: Self)
        ensures
            r@ == default_memory(),
    {
        MemorySection {
            max_memory: text::copy_text("1G"),
            query_cache_size: text::copy_text("64M"),
            sort_buffer_size: text::copy_text("4M"),
        }
    }
}

impl MemorySection {
    /// Whether two sections say the same.
    pub fn same(&self, other: &Self) -> (r: bool)
        ensures
            r == (self@ == other@),
    {
        text::text_equal(self.max_memory.as_str(), other.max_memory.as_str())
            && text::text_equal(self.query_cache_size.as_str(), other.query_cache_size.as_str())
            && text::text_equal(self.sort_buffer_size.as_str(), other.sort_buffer_size.as_str())
    }
}

/// Credentials, transport security and file access.
#[derive(Debug)]
pub struct SecuritySection {
    pub default_username: String,
    pub default_password: String,
    pub authentication: String,
    pub require_secure_transport: bool,
    pub tls_cert: Option<String>,
    pub tls_key: Option<String>,
    pub password_lifetime: u32,
    pub enforce_strong_passwords: bool,
    pub local_infile: bool,
    pub secure_file_priv: Option<String>,
    pub max_load_data_size: usize,
}

#[verifier::ext_equal]
pub struct SecurityModel {
    pub default_username: Seq<char>,
    pub default_password: Seq<char>,
    pub authentication: Seq<char>,
    pub require_secure_transport: bool,
    pub tls_cert: Option<Seq<char>>,
    pub tls_key: Option<Seq<char>>,
    pub password_lifetime: u32,
    pub enforce_strong_passwords: bool,
    pub local_infile: bool,
    pub secure_file_priv: Option<Seq<char>>,
    pub max_load_data_size: usize,
}

impl View for SecuritySection {
    type V = SecurityModel;

    open spec fn view(&self) -> SecurityModel {
        SecurityModel {
            default_username: self.default_username@,
            default_password: self.default_password@,
            authentication: self.authentication@,
            require_secure_transport: self.require_secure_transport,
            tls_cert: self.tls_cert.deep_view(),
            tls_key: self.tls_key.deep_view(),
            password_lifetime: self.password_lifetime,
            enforce_strong_passwords: self.enforce_strong_passwords,
            local_infile: self.local_infile,
            secure_file_priv: self.secure_file_priv.deep_view(),
            max_load_data_size: self.max_load_data_size,
        }
    }
}

impl Clone for SecuritySection {
    fn clone(&self) -> (r: Self)
        ensures
            r@ == self@,
    {
        SecuritySection {
            default_username: text::copy_text(self.default_username.as_str()),
            default_password: text::copy_text(self.default_password.as_str()),
            authentication: text::copy_text(self.authentication.as_str()),
            require_secure_transport: self.require_secure_transport,
            tls_cert: copy_option(&self.tls_cert),
            tls_key: copy_option(&self.tls_key),
            password_lifetime: self.password_lifetime,
            enforce_strong_passwords: self.enforce_strong_passwords,
            local_infile: self.local_infile,
            secure_file_priv: copy_option(&self.secure_file_priv),
            max_load_data_size: self.max_load_data_size,
        }
    }
}

pub open spec fn default_security() -> SecurityModel {
    SecurityModel {
        default_username: "root"@,
        default_password: "root"@,
        authentication: "mysql_native_password"@,
        require_secure_transport: false,
        tls_cert: None,
        tls_key: None,
        password_lifetime: 0,
        enforce_strong_passwords: false,
        local_infile: true,
        secure_file_priv: None,
        max_load_data_size: 1073741824,
    }
}

impl Default for SecuritySection {
    fn default() -> (r: Self)
        ensures
            r@ == default_security(),
    {
        SecuritySection {
            default_username: text::copy_text("root"),
            default_password: text::copy_text("root"),
            authentication: text::copy_text("mysql_native_password"),
            require_secure_transport: false,
            tls_cert: None,
            tls_key: None,
            password_lifetime: 0,
            enforce_strong_passwords: false,
            local_infile: true,
            secure_file_priv: None,
            max_load_data_size: 1073741824,
        }
    }
}

impl SecuritySection {
    /// Whether two sections say the same.
    pub fn same(&self, other: &Self) -> (r: bool)
        ensures
            r == (self@ == other@),
    {
        text::text_equal(self.default_username.as_str(), other.default_username.as_str())
            && text::text_equal(self.default_password.as_str(), other.default_password.as_str())
            && text::text_equal(self.authentication.as_str(), other.authentication.as_str())
            && self.require_secure_transport == other.require_secure_transport
            && same_option(&self.tls_cert, &other.tls_cert)
            && same_option(&self.tls_key, &other.tls_key)
            && self.password_lifetime == other.password_lifetime
            && self.enforce_strong_passwords == other.enforce_strong_passwords
            && self.local_infile == other.local_infile
            && same_option(&self.secure_file_priv, &other.secure_file_priv)
            && self.max_load_data_size == other.max_load_data_size
    }
}

/// Backups.
#[derive(Debug)]
pub struct BackupSection {
    pub backup_dir: String,
    pub auto_backup_interval: u32,
    pub max_backups: u32,
}

#[verifier::ext_equal]
pub struct BackupModel {
    pub backup_dir: Seq<char>,
    pub auto_backup_interval: u32,
    pub max_backups: u32,
}

impl View for BackupSection {
    type V = BackupModel;

    open spec fn view(&self) -> BackupModel {
        BackupModel {
            backup_dir: self.backup_dir@,
            auto_backup_interval: self.auto_backup_interval,
            max_backups: self.max_backups,
        }
    }
}

impl Clone for BackupSection {
    fn clone(&self) -> (r: Self)
        ensures
            r@ == self@,
    {
        BackupSection {
            backup_dir: text::copy_text(self.backup_dir.as_str()),
            auto_backup_interval: self.auto_backup_interval,
            max_backups: self.max_backups,
        }
    }
}

pub open spec fn default_backup() -> BackupModel {
    BackupModel {
        backup_dir: "/var/lib/mydb/backups"@,
        auto_backup_interval: 0,
        max_backups: 10,
    }
}

impl Default for BackupSection {
    fn default() -> (r: Self)
        ensures
            r@ == default_backup(),
    {
        BackupSection {
            backup_dir: text::copy_text("/var/lib/mydb/backups"),
            auto_backup_interval: 0,
            max_backups: 10,
        }
    }
}

impl BackupSection {
    /// Whether two sections say the same.
    pub fn same(&self, other: &Self) -> (r: bool)
        ensures
            r == (self@ == other@),
    {
        text::text_equal(self.backup_dir.as_str(), other.backup_dir.as_str())
            && self.auto_backup_interval == other.auto_backup_interval
            && self.max_backups == other.max_backups
    }
}

/// Logs.
#[derive(Debug)]
pub struct LoggingSection {
    pub level: String,
    pub file: Option<String>,
    pub max_size: String,
    pub max_files: u32,
}

#[verifier::ext_equal]
pub struct LoggingModel {
    pub level: Seq<char>,
    pub file: Option<Seq<char>>,
    pub max_size: Seq<char>,
    pub max_files: u32,
}

impl View for LoggingSection {
    type V = LoggingModel;

    open spec fn view(&self) -> LoggingModel {
        LoggingModel {
            level: self.level@,
            file: self.file.deep_view(),
            max_size: self.max_size@,
            max_files: self.max_files,
        }
    }
}

impl Clone for LoggingSection {
    fn clone(&self) -> (r: Self)
        ensures
            r@ == self@,
    {
        LoggingSection {
            level: text::copy_text(self.level.as_str()),
            file: copy_option(&self.file),
            max_size: text::copy_text(self.max_size.as_str()),
            max_files: self.max_files,
        }
    }
}

pub open spec fn default_logging() -> LoggingModel {
    LoggingModel {
        level: "info"@,
        file: None,
        max_size: "100M"@,
        max_files: 10,
    }
}

impl Default for LoggingSection {
    fn default() -> (r: Self)
        ensures
            r@ == default_logging(),
    {
        LoggingSection {
            level: text::copy_text("info"),
            file: None,
            max_size: text::copy_text("100M"),
            max_files: 10,
        }
    }
}

impl LoggingSection {
    /// Whether two sections say the same.
    pub fn same(&self, other: &Self) -> (r: bool)
        ensures
            r == (self@ == other@),
    {
        text::text_equal(self.level.as_str(), other.level.as_str())
            && same_option(&self.file, &other.file)
            && text::text_equal(self.max_size.as_str(), other.max_size.as_str())
            && self.max_files == other.max_files
    }
}

/// Character sets. A section that is not given names none.
#[derive(Debug)]
pub struct CharacterSetSection {
    pub server: String,
    pub connection: String,
    pub results: String,
}

#[verifier::ext_equal]
pub struct CharacterSetModel {
    pub server: Seq<char>,
    pub connection: Seq<char>,
    pub results: Seq<char>,
}

impl View for CharacterSetSection {
    type V = CharacterSetModel;

    open spec fn view(&self) -> CharacterSetModel {
        CharacterSetModel {
            server: self.server@,
            connection: self.connection@,
            results: self.results@,
        }
    }
}

impl Clone for CharacterSetSection {
    fn clone(&self) -> (r: Self)
        ensures
            r@ == self@,
    {
        CharacterSetSection {
            server: text::copy_text(self.server.as_str()),
            connection: text::copy_text(self.connection.as_str()),
            results: text::copy_text(self.results.as_str()),
        }
    }
}

pub open spec fn default_character_set() -> CharacterSetModel {
    CharacterSetModel {
        server: ""@,
        connection: ""@,
        results: ""@,
    }
}

impl Default for CharacterSetSection {
    fn default() -> (r: Self)
        ensures
            r@ == default_character_set(),
    {
        CharacterSetSection {
            server: text::copy_text(""),
            connection: text::copy_text(""),
            results: text::copy_text(""),
        }
    }
}

impl CharacterSetSection {
    /// Whether two sections say the same.
    pub fn same(&self, other: &Self) -> (r: bool)
        ensures
            r == (self@ == other@),
    {
        text::text_equal(self.server.as_str(), other.server.as_str())
            && text::text_equal(self.connection.as_str(), other.connection.as_str())
            && text::text_equal(self.results.as_str(), other.results.as_str())
    }
}

/// The diagnosis agent.
#[derive(Debug)]
pub struct AgentSection {
    pub enabled: bool,
    pub slow_query_threshold_ms: u64,
    pub max_slow_queries: usize,
}

#[verifier::ext_equal]
pub struct AgentModel {
    pub enabled: bool,
    pub slow_query_threshold_ms: u64,
    pub max_slow_queries: usize,
}

impl View for AgentSection {
    type V = AgentModel;

    open spec fn view(&self) -> AgentModel {
        AgentModel {
            enabled: self.enabled,
            slow_query_threshold_ms: self.slow_query_threshold_ms,
            max_slow_queries: self.max_slow_queries,
        }
    }
}

impl Clone for AgentSection {
    fn clone(&self) -> (r: Self)
        ensures
            r@ == self@,
    {
        AgentSection {
            enabled: self.enabled,
            slow_query_threshold_ms: self.slow_query_threshold_ms,
            max_slow_queries: self.max_slow_queries,
        }
    }
}

pub open spec fn default_agent() -> AgentModel {
    AgentModel {
        enabled: true,
        slow_query_threshold_ms: 100,
        max_slow_queries: 1024,
    }
}

impl Default for AgentSection {
    fn default() -> (r: Self)
        ensures
            r@ == default_agent(),
    {
        AgentSection {
            enabled: true,
            slow_query_threshold_ms: 100,
            max_slow_queries: 1024,
        }
    }
}

impl AgentSection {
    /// Whether two sections say the same.
    pub fn same(&self, other: &Self) -> (r: bool)
        ensures
            r == (self@ == other@),
    {
        self.enabled == other.enabled
            && self.slow_query_threshold_ms == other.slow_query_threshold_ms
            && self.max_slow_queries == other.max_slow_queries
    }
}

/// The whole configuration.
#[derive(Debug)]
pub struct ServerConfig {
    pub server: ServerSection,
    pub http: HttpSection,
    pub storage: StorageSection,
    pub memory: MemorySection,
    pub security: SecuritySection,
    pub backup: BackupSection,
    pub logging: LoggingSection,
    pub character_set: CharacterSetSection,
    pub agent: AgentSection,
}

#[verifier::ext_equal]
pub struct ConfigModel {
    pub server: ServerModel,
    pub http: HttpModel,
    pub storage: StorageModel,
    pub memory: MemoryModel,
    pub security: SecurityModel,
    pub backup: BackupModel,
    pub logging: LoggingModel,
    pub character_set: CharacterSetModel,
    pub agent: AgentModel,
}

impl View for ServerConfig {
    type V = ConfigModel;

    open spec fn view(&self) -> ConfigModel {
        ConfigModel {
            server: self.server@,
            http: self.http@,
            storage: self.storage@,
            memory: self.memory@,
            security: self.security@,
            backup: self.backup@,
            logging: self.logging@,
            character_set: self.character_set@,
            agent: self.agent@,
        }
    }
}

impl DeepView for ServerConfig {
    type V = ConfigModel;

    open spec fn deep_view(&self) -> ConfigModel {
        self@
    }
}

impl Clone for ServerConfig {
    fn clone(&self) -> (r: Self)
        ensures
            r@ == self@,
    {
        ServerConfig {
            server: self.server.clone(),
            http: self.http.clone(),
            storage: self.storage.clone(),
            memory: self.memory.clone(),
            security: self.security.clone(),
            backup: self.backup.clone(),
            logging: self.logging.clone(),
            character_set: self.character_set.clone(),
            agent: self.agent.clone(),
        }
    }
}

pub open spec fn default_config() -> ConfigModel {
    ConfigModel {
        server: default_server(),
        http: default_http(),
        storage: default_storage(),
        memory: default_memory(),
        security: default_security(),
        backup: default_backup(),
        logging: default_logging(),
        character_set: default_character_set(),
        agent: default_agent(),
    }
}

impl Default for ServerConfig {
    fn default() -> (r: Self)
        ensures
            r@ == default_config(),
    {
        ServerConfig {
            server: ServerSection::default(),
            http: HttpSection::default(),
            storage: StorageSection::default(),
            memory: MemorySection::default(),
            security: SecuritySection::default(),
            backup: BackupSection::default(),
            logging: LoggingSection::default(),
            character_set: CharacterSetSection::default(),
            agent: AgentSection::default(),
        }
    }
}

// ---------------------------------------------------------------------------------------------
// Secrets
// ---------------------------------------------------------------------------------------------
/// A file that holds a secret: its path, and what was read or why it could not be.
#[derive(Debug)]
pub struct SecretFile {
    pub path: String,
    pub content: Result<String, String>,
}

/// A text without one line ending at its end.
pub open spec fn without_line_end(s: Seq<char>) -> Seq<char> {
    let a = if s.len() > 0 && s.last() == '\n' {
        s.drop_last()
    } else {
        s
    };
    if a.len() > 0 && a.last() == '\r' {
        a.drop_last()
    } else {
        a
    }
}

fn strip_line_end(s: &str) -> (r: String)
    ensures
        r@ == without_line_end(s@),
{
    let c = text::chars_of(s);
    let mut n: usize = c.len();
    if n > 0 && c[n - 1] == '\n' {
        n -= 1;
    }
    let ghost a = c@.subrange(0, n as int);
    assert(a =~= if s@.len() > 0 && s@.last() == '\n' {
        s@.drop_last()
    } else {
        s@
    });
    if n > 0 && c[n - 1] == '\r' {
        n -= 1;
        assert(c@.subrange(0, n as int) =~= a.drop_last());
    }
    text::slice_text(&c, 0, n)
}

/// A secret given by value or by file; not by both, and never empty.
pub open spec fn secret_of(
    name: Seq<char>,
    value: Option<Seq<char>>,
    file: Option<(Seq<char>, Result<Seq<char>, Seq<char>>)>,
) -> Result<Option<Seq<char>>, Seq<char>> {
    match (value, file) {
        (Some(_), Some(_)) => Err("set either "@ + name + " or "@ + name + "_FILE, not both"@),
        (Some(v), None) => if v.len() == 0 {
            Err(name + " must not be empty"@)
        } else {
            Ok(Some(v))
        },
        (None, Some((path, content))) => match content {
            Err(e) => Err("read "@ + name + "_FILE "@ + path + ": "@ + e),
            Ok(read) => {
                let v = without_line_end(read);
                if v.len() == 0 {
                    Err(name + "_FILE must not contain an empty secret"@)
                } else {
                    Ok(Some(v))
                }
            },
        },
        (None, None) => Ok(None),
    }
}

pub open spec fn file_model(file: Option<SecretFile>) -> Option<
    (Seq<char>, Result<Seq<char>, Seq<char>>),
> {
    match file {
        None => None,
        Some(f) => Some(
            (
                f.path@,
                match f.content {
                    Ok(c) => Ok(c@),
                    Err(e) => Err(e@),
                },
            ),
        ),
    }
}

fn is_empty_text(s: &str) -> (r: bool)
    ensures
        r == (s@.len() == 0),
{
    let c = text::chars_of(s);
    c.len() == 0
}

pub fn secret_from_value_or_file(
    name: &str,
    value: Option<String>,
    file: Option<SecretFile>,
) -> (r: DbResult<Option<String>>)
    ensures
        error::outcome(r) == secret_of(name@, value.deep_view(), file_model(file)),
{
    match value {
        Some(v) => {
            if file.is_some() {
                return Err(
                    DbError::new(error::cat5("set either ", name, " or ", name, "_FILE, not both")),
                );
            }
            if is_empty_text(v.as_str()) {
                return Err(DbError::new(error::cat2(name, " must not be empty")));
            }
            Ok(Some(v))
        },
        None => match file {
            None => Ok(None),
            Some(f) => match f.content {
                Err(e) => {
                    let start = error::cat5("read ", name, "_FILE ", f.path.as_str(), ": ");
                    Err(DbError::new(error::cat2(start.as_str(), e.as_str())))
                },
                Ok(read) => {
                    let v = strip_line_end(read.as_str());
                    if is_empty_text(v.as_str()) {
                        return Err(
                            DbError::new(
                                error::cat2(name, "_FILE must not contain an empty secret"),
                            ),
                        );
                    }
                    Ok(Some(v))
                },
            },
        },
    }
}

// ---------------------------------------------------------------------------------------------
// The environment
// ---------------------------------------------------------------------------------------------
/// The variables that override the configuration, and what reading each of the two secrets gave.
#[derive(Debug)]
pub struct Environment {
    pub port: Option<String>,
    pub thread_count: Option<String>,
    pub http_port: Option<String>,
    pub data_dir: Option<String>,
    pub group_commit_window_us: Option<String>,
    pub root_password: DbResult<Option<String>>,
    pub admin_password: DbResult<Option<String>>,
    pub log_level: Option<String>,
    pub local_infile: Option<String>,
    pub secure_file_priv: Option<String>,
    pub max_load_data_size: Option<String>,
    pub enforce_strong_passwords: Option<String>,
}

/// The number that a variable gives, or the one that stands.
pub open spec fn number_or(value: Option<Seq<char>>, old: nat, max: nat) -> Result<nat, Seq<char>> {
    match value {
        None => Ok(old),
        Some(v) => match num::parsed(v, max) {
            Some(n) => Ok(n),
            None => Err(num::fault(v, 10, max)),
        },
    }
}

fn read_number(value: &Option<String>, old: u64, max: u64) -> (r: DbResult<u64>)
    requires
        old <= max,
    ensures
        match r {
            Ok(n) => n <= max && number_or(value.deep_view(), old as nat, max as nat) == Ok::<
                nat,
                Seq<char>,
            >(n as nat),
            Err(e) => number_or(value.deep_view(), old as nat, max as nat) == Err::<
                nat,
                Seq<char>,
            >(e.message@),
        },
{
    match value {
        None => Ok(old),
        Some(v) => match num::parse_u64(v.as_str(), max) {
            Some(n) => Ok(n),
            None => Err(DbError::new(num::fault_text(v.as_str(), 10, max))),
        },
    }
}

pub open spec fn text_or(value: Option<Seq<char>>, old: Seq<char>) -> Seq<char> {
    match value {
        Some(v) => v,
        None => old,
    }
}

fn read_text(value: &Option<String>, old: String) -> (r: String)
    ensures
        r@ == text_or(value.deep_view(), old@),
{
    match value {
        Some(v) => text::copy_text(v.as_str()),
        None => old,
    }
}

/// Whether a variable says yes.
pub open spec fn says_yes(value: Seq<char>) -> bool {
    let v = text::fold(value);
    v == "1"@ || v == "true"@ || v == "on"@ || v == "yes"@
}

pub open spec fn flag_or(value: Option<Seq<char>>, old: bool) -> bool {
    match value {
        Some(v) => says_yes(v),
        None => old,
    }
}

fn read_flag(value: &Option<String>, old: bool) -> (r: bool)
    ensures
        r == flag_or(value.deep_view(), old),
{
    match value {
        None => old,
        Some(v) => {
            let l = text::to_lower(v.as_str());
            let l = l.as_str();
            text::text_equal(l, "1") || text::text_equal(l, "true") || text::text_equal(l, "on")
                || text::text_equal(l, "yes")
        },
    }
}

/// The secret that was read, or the one that stands.
pub open spec fn secret_or(
    value: Result<Option<Seq<char>>, Seq<char>>,
    old: Seq<char>,
) -> Result<Seq<char>, Seq<char>> {
    match value {
        Err(m) => Err(m),
        Ok(v) => Ok(text_or(v, old)),
    }
}

fn read_secret(value: &DbResult<Option<String>>, old: String) -> (r: DbResult<String>)
    ensures
        error::outcome(r) == secret_or(error::outcome(*value), old@),
{
    match value {
        Err(e) => Err(DbError::of(e.message.as_str())),
        Ok(v) => Ok(read_text(v, old)),
    }
}

/// The numbers and the secrets that a configuration takes from the environment.
pub struct OverridesModel {
    pub port: nat,
    pub thread_count: nat,
    pub http_port: nat,
    pub group_commit_window_us: nat,
    pub root_password: Seq<char>,
    pub admin_password: Seq<char>,
    pub max_load_data_size: nat,
}

/// The numbers and the secrets, read in their order. The first that cannot be read is the error.
pub open spec fn overrides(c: ConfigModel, e: Environment) -> Result<OverridesModel, Seq<char>> {
    let port = number_or(e.port.deep_view(), c.server.port as nat, u16::MAX as nat);
    let threads = number_or(
        e.thread_count.deep_view(),
        c.server.thread_count as nat,
        u32::MAX as nat,
    );
    let http = number_or(e.http_port.deep_view(), c.http.port as nat, u16::MAX as nat);
    let window = number_or(
        e.group_commit_window_us.deep_view(),
        c.storage.group_commit_window_us as nat,
        u64::MAX as nat,
    );
    let root = secret_or(error::outcome(e.root_password), c.security.default_password);
    let admin = secret_or(error::outcome(e.admin_password), c.http.admin_password);
    let load = number_or(
        e.max_load_data_size.deep_view(),
        c.security.max_load_data_size as nat,
        usize::MAX as nat,
    );
    match (port, threads, http, window, root, admin, load) {
        (Err(m), _, _, _, _, _, _) => Err(m),
        (_, Err(m), _, _, _, _, _) => Err(m),
        (_, _, Err(m), _, _, _, _) => Err(m),
        (_, _, _, Err(m), _, _, _) => Err(m),
        (_, _, _, _, Err(m), _, _) => Err(m),
        (_, _, _, _, _, Err(m), _) => Err(m),
        (_, _, _, _, _, _, Err(m)) => Err(m),
        (Ok(port), Ok(threads), Ok(http), Ok(window), Ok(root), Ok(admin), Ok(load)) => Ok(
            OverridesModel {
                port: port,
                thread_count: threads,
                http_port: http,
                group_commit_window_us: window,
                root_password: root,
                admin_password: admin,
                max_load_data_size: load,
            },
        ),
    }
}

/// The configuration that the environment makes of one.
pub open spec fn overridden(c: ConfigModel, e: Environment) -> Result<ConfigModel, Seq<char>> {
    match overrides(c, e) {
        Err(m) => Err(m),
        Ok(o) => Ok(
            ConfigModel {
                server: ServerModel {
                    port: o.port as u16,
                    thread_count: o.thread_count as u32,
                    ..c.server
                },
                http: HttpModel {
                    port: o.http_port as u16,
                    admin_password: o.admin_password,
                    ..c.http
                },
                storage: StorageModel {
                    data_dir: text_or(e.data_dir.deep_view(), c.storage.data_dir),
                    group_commit_window_us: o.group_commit_window_us as u64,
                    ..c.storage
                },
                security: SecurityModel {
                    default_password: o.root_password,
                    local_infile: flag_or(e.local_infile.deep_view(), c.security.local_infile),
                    secure_file_priv: match e.secure_file_priv.deep_view() {
                        Some(v) => Some(v),
                        None => c.security.secure_file_priv,
                    },
                    max_load_data_size: o.max_load_data_size as usize,
                    enforce_strong_passwords: flag_or(
                        e.enforce_strong_passwords.deep_view(),
                        c.security.enforce_strong_passwords,
                    ),
                    ..c.security
                },
                logging: LoggingModel {
                    level: text_or(e.log_level.deep_view(), c.logging.level),
                    ..c.logging
                },
                ..c
            },
        ),
    }
}

impl ServerConfig {
    /// The configuration with what the environment overrides.
    pub fn apply_env(self, env: &Environment) -> (r: DbResult<ServerConfig>)
        ensures
            error::outcome(r) == overridden(self@, *env),
    {
        let mut c = self;
        let port = match read_number(&env.port, c.server.port as u64, 65535) {
            Err(e) => {
                return Err(e);
            },
            Ok(n) => n,
        };
        let threads = match read_number(
            &env.thread_count,
            c.server.thread_count as u64,
            u32::MAX as u64,
        ) {
            Err(e) => {
                return Err(e);
            },
            Ok(n) => n,
        };
        let http = match read_number(&env.http_port, c.http.port as u64, 65535) {
            Err(e) => {
                return Err(e);
            },
            Ok(n) => n,
        };
        let window = match read_number(
            &env.group_commit_window_us,
            c.storage.group_commit_window_us,
            u64::MAX,
        ) {
            Err(e) => {
                return Err(e);
            },
            Ok(n) => n,
        };
        let root = match read_secret(&env.root_password, c.security.default_password) {
            Err(e) => {
                return Err(e);
            },
            Ok(v) => v,
        };
        let admin = match read_secret(&env.admin_password, c.http.admin_password) {
            Err(e) => {
                return Err(e);
            },
            Ok(v) => v,
        };
        let load = match read_number(
            &env.max_load_data_size,
            c.security.max_load_data_size as u64,
            usize::MAX as u64,
        ) {
            Err(e) => {
                return Err(e);
            },
            Ok(n) => n,
        };
        c.server.port = port as u16;
        c.server.thread_count = threads as u32;
        c.http.port = http as u16;
        c.http.admin_password = admin;
        c.storage.data_dir = read_text(&env.data_dir, c.storage.data_dir);
        c.storage.group_commit_window_us = window;
        c.security.default_password = root;
        c.security.local_infile = read_flag(&env.local_infile, c.security.local_infile);
        match &env.secure_file_priv {
            None => {},
            Some(v) => {
                c.security.secure_file_priv = Some(text::copy_text(v.as_str()));
            },
        }
        c.security.max_load_data_size = load as usize;
        c.security.enforce_strong_passwords = read_flag(
            &env.enforce_strong_passwords,
            c.security.enforce_strong_passwords,
        );
        c.logging.level = read_text(&env.log_level, c.logging.level);
        Ok(c)
    }
}

/// An environment that sets nothing changes nothing.
pub proof fn empty_environment_changes_nothing(c: ConfigModel, e: Environment)
    requires
        e.port is None && e.thread_count is None && e.http_port is None && e.data_dir is None
            && e.group_commit_window_us is None && e.root_password == Ok::<Option<String>, DbError>(None)
            && e.admin_password == Ok::<Option<String>, DbError>(None) && e.log_level is None && e.local_infile is None && e.secure_file_priv is None
            && e.max_load_data_size is None && e.enforce_strong_passwords is None,
    ensures
        overridden(c, e) == Ok::<ConfigModel, Seq<char>>(c),
{
    assert(overridden(c, e)->Ok_0 =~= c);
}

} // verus!
