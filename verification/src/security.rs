//! Security of the running server: secrets, tokens, and which settings may change while it runs.
use crate::config::{ConfigModel, HttpModel, SecurityModel, ServerConfig};
use crate::error;
use crate::error::{DbError, DbResult};
use crate::search;
use crate::text;
use vstd::prelude::*;

verus! {

// ---------------------------------------------------------------------------------------------
// Secrets
// ---------------------------------------------------------------------------------------------
pub open spec fn all_white(s: Seq<char>) -> bool {
    forall|i: int| 0 <= i < s.len() ==> text::is_white(#[trigger] s[i])
}

/// Why a secret is not strong.
pub open spec fn weakness(name: Seq<char>, value: Seq<char>) -> Option<Seq<char>> {
    if text::bytes_of(value).len() < 20 {
        Some(
            name
                + " must contain at least 20 bytes when strong secret enforcement is enabled"@,
        )
    } else if text::same_fold(value, "root"@) || search::contains_text(
        text::upper(value),
        "CHANGE_ME"@,
    ) || all_white(value) {
        Some(name + " is a placeholder or weak secret"@)
    } else {
        None
    }
}

fn is_all_white(s: &str) -> (r: bool)
    ensures
        r == all_white(s@),
{
    let c = text::chars_of(s);
    let mut i: usize = 0;
    while i < c.len()
        invariant
            i <= c@.len(),
            c@ == s@,
            forall|j: int| 0 <= j < i ==> text::is_white(#[trigger] c@[j]),
        decreases c@.len() - i,
    {
        if !text::char_is_white(c[i]) {
            return false;
        }
        i += 1;
    }
    true
}

pub fn validate_strong_secret(name: &str, value: &str) -> (r: DbResult<()>)
    ensures
        match weakness(name@, value@) {
            Some(e) => r matches Err(x) && x.message@ == e,
            None => r is Ok,
        },
{
    let bytes = text::text_bytes(value);
    if bytes.len() < 20 {
        return Err(
            DbError::new(
                error::cat2(
                    name,
                    " must contain at least 20 bytes when strong secret enforcement is enabled",
                ),
            ),
        );
    }
    let upper = text::to_upper(value);
    if text::eq_fold(value, "root") || search::text_contains(upper.as_str(), "CHANGE_ME")
        || is_all_white(value) {
        return Err(DbError::new(error::cat2(name, " is a placeholder or weak secret")));
    }
    Ok(())
}

/// Why a server with a configuration must not start.
pub open spec fn security_fault(c: ConfigModel) -> Option<Seq<char>> {
    let s = c.security;
    if s.tls_cert is Some != s.tls_key is Some {
        Some("tls_cert and tls_key must be configured together"@)
    } else if s.require_secure_transport && s.tls_cert is None {
        Some("require_secure_transport=true requires tls_cert and tls_key"@)
    } else if s.default_password.len() == 0 || c.http.admin_password.len() == 0 {
        Some("MySQL and HTTP administrator secrets must not be empty"@)
    } else if !s.enforce_strong_passwords {
        None
    } else if weakness("MYDB_ROOT_PASSWORD"@, s.default_password) is Some {
        weakness("MYDB_ROOT_PASSWORD"@, s.default_password)
    } else if weakness("MYDB_ADMIN_PASSWORD"@, c.http.admin_password) is Some {
        weakness("MYDB_ADMIN_PASSWORD"@, c.http.admin_password)
    } else if s.default_password == c.http.admin_password {
        Some("MySQL and HTTP administrator secrets must be different"@)
    } else {
        None
    }
}

fn is_empty(s: &str) -> (r: bool)
    ensures
        r == (s@.len() == 0),
{
    let c = text::chars_of(s);
    c.len() == 0
}

pub fn validate_runtime_security(c: &ServerConfig) -> (r: DbResult<()>)
    ensures
        match security_fault(c@) {
            Some(e) => r matches Err(x) && x.message@ == e,
            None => r is Ok,
        },
{
    if c.security.tls_cert.is_some() != c.security.tls_key.is_some() {
        return Err(DbError::of("tls_cert and tls_key must be configured together"));
    }
    if c.security.require_secure_transport && c.security.tls_cert.is_none() {
        return Err(DbError::of("require_secure_transport=true requires tls_cert and tls_key"));
    }
    let root = c.security.default_password.as_str();
    let admin = c.http.admin_password.as_str();
    if is_empty(root) || is_empty(admin) {
        return Err(DbError::of("MySQL and HTTP administrator secrets must not be empty"));
    }
    if c.security.enforce_strong_passwords {
        match validate_strong_secret("MYDB_ROOT_PASSWORD", root) {
            Err(e) => {
                return Err(e);
            },
            Ok(_) => {},
        }
        match validate_strong_secret("MYDB_ADMIN_PASSWORD", admin) {
            Err(e) => {
                return Err(e);
            },
            Ok(_) => {},
        }
        if text::text_equal(root, admin) {
            return Err(DbError::of("MySQL and HTTP administrator secrets must be different"));
        }
    }
    Ok(())
}

// ---------------------------------------------------------------------------------------------
// Tokens
// ---------------------------------------------------------------------------------------------
/// Whether two byte strings are equal, looking at all bytes whatever they hold.
pub fn constant_time_eq(left: &[u8], right: &[u8]) -> (r: bool)
    ensures
        r == (left@ == right@),
{
    let mut difference: usize = left.len() ^ right.len();
    let length: usize = if left.len() > right.len() {
        left.len()
    } else {
        right.len()
    };
    let ghost n = left@.len();
    let ghost m = right@.len();
    proof {
        let a: usize = left@.len() as usize;
        let b: usize = right@.len() as usize;
        assert((a ^ b == 0) == (a == b)) by (bit_vector);
    }
    let mut i: usize = 0;
    while i < length
        invariant
            i <= length,
            n == left@.len(),
            m == right@.len(),
            length == if n > m {
                n
            } else {
                m
            },
            (difference == 0) == (n == m && forall|j: int|
                0 <= j < i ==> left@[j] == right@[j]),
        decreases length - i,
    {
        let a: u8 = if i < left.len() {
            left[i]
        } else {
            0
        };
        let b: u8 = if i < right.len() {
            right[i]
        } else {
            0
        };
        let both: u8 = a ^ b;
        let wide: usize = both as usize;
        let before: usize = difference;
        difference = difference | wide;
        proof {
            assert((a ^ b == 0) == (a == b)) by (bit_vector);
            assert((before | wide == 0) == (before == 0 && wide == 0)) by (bit_vector);
            if n == m && (forall|j: int| 0 <= j < i ==> left@[j] == right@[j]) && a == b {
                assert forall|j: int| 0 <= j < i + 1 implies left@[j] == right@[j] by {}
            }
            if n == m && (forall|j: int| 0 <= j < i + 1 ==> left@[j] == right@[j]) {
                assert(left@[i as int] == right@[i as int]);
            }
        }
        i += 1;
    }
    proof {
        if n == m && (forall|j: int| 0 <= j < n ==> left@[j] == right@[j]) {
            assert(left@ =~= right@);
        }
        if left@ == right@ {
            assert(forall|j: int| 0 <= j < n ==> left@[j] == right@[j]);
        }
    }
    difference == 0
}

/// Whether a request carries the administrator's token.
pub open spec fn authorized(password: Seq<char>, header: Option<Seq<char>>) -> bool {
    header matches Some(h) && text::bytes_of("Bearer "@ + password) == text::bytes_of(h)
}

pub fn authorize(password: &str, header: Option<&str>) -> (r: bool)
    ensures
        r == authorized(
            password@,
            match header {
                Some(h) => Some(h@),
                None => None,
            },
        ),
{
    match header {
        None => false,
        Some(h) => {
            let expected = error::cat2("Bearer ", password);
            let a = text::text_bytes(expected.as_str());
            let b = text::text_bytes(h);
            constant_time_eq(a.as_slice(), b.as_slice())
        },
    }
}

/// Whether a request may reach the agent: `None`, or the HTTP status that it is answered.
pub fn authorize_agent(c: &ServerConfig, header: Option<&str>) -> (r: Option<u16>)
    ensures
        r == (if !c.agent.enabled {
            Some(404u16)
        } else if authorized(
            c.http.admin_password@,
            match header {
                Some(h) => Some(h@),
                None => None,
            },
        ) {
            None
        } else {
            Some(401u16)
        }),
{
    if !c.agent.enabled {
        return Some(404);
    }
    if authorize(c.http.admin_password.as_str(), header) {
        None
    } else {
        Some(401)
    }
}

// ---------------------------------------------------------------------------------------------
// Changes while the server runs
// ---------------------------------------------------------------------------------------------
pub open spec fn redacted_text() -> Seq<char> {
    "<redacted>"@
}

/// A configuration without its secrets.
pub open spec fn redacted(c: ConfigModel) -> ConfigModel {
    ConfigModel {
        security: SecurityModel { default_password: redacted_text(), ..c.security },
        http: HttpModel { admin_password: redacted_text(), ..c.http },
        ..c
    }
}

pub fn redacted_config(c: &ServerConfig) -> (r: ServerConfig)
    ensures
        r@ == redacted(c@),
{
    let mut r = c.clone();
    r.security.default_password = text::copy_text("<redacted>");
    r.http.admin_password = text::copy_text("<redacted>");
    r
}

/// Whether the settings that need a restart are the same.
pub open spec fn reloadable(current: ConfigModel, candidate: ConfigModel) -> bool {
    current.server == candidate.server && current.storage == candidate.storage && current.memory
        == candidate.memory && current.logging == candidate.logging && current.character_set
        == candidate.character_set && current.http.host == candidate.http.host
        && current.http.port == candidate.http.port && current.http.enabled
        == candidate.http.enabled
}

pub open spec fn restart_needed() -> Seq<char> {
    "listener, storage, memory, logging, and character-set settings require a process restart"@
}

pub fn validate_reloadable_config(current: &ServerConfig, candidate: &ServerConfig) -> (r: DbResult<
    (),
>)
    ensures
        match r {
            Ok(_) => reloadable(current@, candidate@),
            Err(e) => !reloadable(current@, candidate@) && e.message@ == restart_needed(),
        },
{
    if current.server.same(&candidate.server) && current.storage.same(&candidate.storage)
        && current.memory.same(&candidate.memory) && current.logging.same(&candidate.logging)
        && current.character_set.same(&candidate.character_set) && text::text_equal(
        current.http.host.as_str(),
        candidate.http.host.as_str(),
    ) && current.http.port == candidate.http.port && current.http.enabled
        == candidate.http.enabled {
        Ok(())
    } else {
        Err(
            DbError::of(
                "listener, storage, memory, logging, and character-set settings require a process restart",
            ),
        )
    }
}

/// A candidate whose redacted secrets stand for the current ones.
pub open spec fn unredacted(current: ConfigModel, candidate: ConfigModel) -> ConfigModel {
    ConfigModel {
        security: SecurityModel {
            default_password: if candidate.security.default_password == redacted_text() {
                current.security.default_password
            } else {
                candidate.security.default_password
            },
            ..candidate.security
        },
        http: HttpModel {
            admin_password: if candidate.http.admin_password == redacted_text() {
                current.http.admin_password
            } else {
                candidate.http.admin_password
            },
            ..candidate.http
        },
        ..candidate
    }
}

/// The configuration that a candidate makes of the current one, or why it is refused.
pub open spec fn runtime_config(current: ConfigModel, candidate: ConfigModel) -> Result<
    ConfigModel,
    Seq<char>,
> {
    let c = unredacted(current, candidate);
    match security_fault(c) {
        Some(e) => Err(e),
        None => if reloadable(current, c) {
            Ok(c)
        } else {
            Err(restart_needed())
        },
    }
}

pub fn apply_runtime_config(current: &ServerConfig, candidate: ServerConfig) -> (r: DbResult<
    ServerConfig,
>)
    ensures
        error::outcome(r) == runtime_config(current@, candidate@),
{
    let mut c = candidate;
    if text::text_equal(c.security.default_password.as_str(), "<redacted>") {
        c.security.default_password = text::copy_text(current.security.default_password.as_str());
    }
    if text::text_equal(c.http.admin_password.as_str(), "<redacted>") {
        c.http.admin_password = text::copy_text(current.http.admin_password.as_str());
    }
    assert(c@ =~= unredacted(current@, candidate@));
    match validate_runtime_security(&c) {
        Err(e) => {
            return Err(e);
        },
        Ok(_) => {},
    }
    match validate_reloadable_config(current, &c) {
        Err(e) => Err(e),
        Ok(_) => Ok(c),
    }
}

/// How many threads serve: as many as are configured, else as many as the machine runs at once.
pub fn runtime_worker_threads(configured: u32, available: usize) -> (r: usize)
    ensures
        r == (if configured > 0 {
            configured as usize
        } else if available > 0 {
            available
        } else {
            1
        }),
        r >= 1,
{
    if configured > 0 {
        configured as usize
    } else if available > 0 {
        available
    } else {
        1
    }
}

// ---------------------------------------------------------------------------------------------
// Laws
// ---------------------------------------------------------------------------------------------
/// A redacted configuration says nothing about the secrets: configurations that differ in secrets
/// alone are the same once redacted.
pub proof fn redaction_hides_secrets(a: ConfigModel, b: ConfigModel)
    requires
        a.server == b.server && a.storage == b.storage && a.memory == b.memory && a.backup
            == b.backup && a.logging == b.logging && a.character_set == b.character_set && a.agent
            == b.agent,
        a.http == (HttpModel { admin_password: a.http.admin_password, ..b.http }),
        a.security == (SecurityModel {
            default_password: a.security.default_password,
            ..b.security
        }),
    ensures
        redacted(a) == redacted(b),
{
}

/// Sending back a configuration as it was shown changes nothing.
pub proof fn shown_config_can_be_sent_back(c: ConfigModel)
    requires
        security_fault(c) is None,
    ensures
        runtime_config(c, redacted(c)) == Ok::<ConfigModel, Seq<char>>(c),
{
    assert(unredacted(c, redacted(c)) =~= c);
}

/// A server that demands secure transport has a certificate and a key.
pub proof fn secure_transport_has_tls(c: ConfigModel)
    requires
        security_fault(c) is None,
        c.security.require_secure_transport,
    ensures
        c.security.tls_cert is Some,
        c.security.tls_key is Some,
{
}

} // verus!
