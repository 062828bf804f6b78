//! The connection router: which backend a connection goes to.
use crate::error;
use crate::error::{DbError, DbResult};
use crate::num;
use crate::search;
use crate::text;
use vstd::prelude::*;

verus! {

#[derive(Debug)]
pub struct RouterConfig {
    pub listen_host: String,
    pub listen_port: u16,
    pub backends: Vec<BackendConfig>,
    pub connect_timeout_ms: u64,
    pub max_connections: usize,
    pub tcp_nodelay: bool,
}

#[derive(Debug, PartialEq, Eq)]
pub struct BackendConfig {
    pub host: String,
    pub port: u16,
    pub weight: usize,
}

#[verifier::ext_equal]
pub struct BackendModel {
    pub host: Seq<char>,
    pub port: u16,
    pub weight: usize,
}

impl View for BackendConfig {
    type V = BackendModel;

    open spec fn view(&self) -> BackendModel {
        BackendModel { host: self.host@, port: self.port, weight: self.weight }
    }
}

impl DeepView for BackendConfig {
    type V = BackendModel;

    open spec fn deep_view(&self) -> BackendModel {
        self@
    }
}

impl Clone for BackendConfig {
    fn clone(&self) -> (r: Self)
        ensures
            r@ == self@,
    {
        BackendConfig {
            host: text::copy_text(self.host.as_str()),
            port: self.port,
            weight: self.weight,
        }
    }
}

// ---------------------------------------------------------------------------------------------
// Weights
// ---------------------------------------------------------------------------------------------
/// The weights of the first `n` backends together.
pub open spec fn weight_upto(list: Seq<BackendModel>, n: int) -> nat
    decreases n,
{
    if n <= 0 || n > list.len() {
        0
    } else {
        weight_upto(list, n - 1) + list[n - 1].weight as nat
    }
}

pub open spec fn total_weight(list: Seq<BackendModel>) -> nat {
    weight_upto(list, list.len() as int)
}

proof fn weight_grows(list: Seq<BackendModel>, a: int, b: int)
    requires
        0 <= a <= b <= list.len(),
    ensures
        weight_upto(list, a) <= weight_upto(list, b),
    decreases b - a,
{
    if a < b {
        weight_grows(list, a, b - 1);
    }
}

/// The backend that a slot belongs to, from the `at`-th on: each has as many slots as its weight.
/// A slot behind all of them belongs to the last.
pub open spec fn slot_backend(list: Seq<BackendModel>, slot: nat, at: int) -> int
    decreases list.len() - at,
{
    if at < 0 || at >= list.len() {
        if list.len() == 0 {
            0
        } else {
            list.len() - 1
        }
    } else if slot < list[at].weight {
        at
    } else {
        slot_backend(list, (slot - list[at].weight) as nat, at + 1)
    }
}

pub fn total_backend_weight(backends: &[BackendConfig]) -> (r: DbResult<usize>)
    ensures
        match r {
            Ok(n) => n == total_weight(backends.deep_view()),
            Err(e) => total_weight(backends.deep_view()) > usize::MAX && e.message@
                == "router backend weights overflow"@,
        },
{
    let ghost all = backends.deep_view();
    let mut total: usize = 0;
    let mut i: usize = 0;
    while i < backends.len()
        invariant
            i <= backends@.len(),
            all == backends.deep_view(),
            total == weight_upto(all, i as int),
        decreases backends@.len() - i,
    {
        assert(all[i as int] == backends@[i as int]@);
        match total.checked_add(backends[i].weight) {
            None => {
                proof {
                    weight_grows(all, i + 1, all.len() as int);
                }
                return Err(DbError::of("router backend weights overflow"));
            },
            Some(n) => {
                total = n;
            },
        }
        i += 1;
    }
    assert(all.len() == backends@.len());
    Ok(total)
}

pub fn weighted_backend_index(backends: &[BackendConfig], slot: usize) -> (r: usize)
    ensures
        r == slot_backend(backends.deep_view(), slot as nat, 0),
{
    let ghost all = backends.deep_view();
    let mut left: usize = slot;
    let mut i: usize = 0;
    while i < backends.len()
        invariant
            i <= backends@.len(),
            all == backends.deep_view(),
            slot_backend(all, left as nat, i as int) == slot_backend(all, slot as nat, 0),
        decreases backends@.len() - i,
    {
        assert(all[i as int] == backends@[i as int]@);
        if left < backends[i].weight {
            return i;
        }
        left -= backends[i].weight;
        i += 1;
    }
    assert(all.len() == backends@.len());
    backends.len().saturating_sub(1)
}

/// The order in which backends are tried for a connection: from the one that its slot belongs to,
/// around.
pub open spec fn attempts(list: Seq<BackendModel>, start: int) -> Seq<int> {
    Seq::new(list.len(), |i: int| (start + i) % (list.len() as int))
}

pub fn backend_order(backends: &[BackendConfig], counter: usize) -> (r: DbResult<Vec<usize>>)
    requires
        backends@.len() > 0,
        forall|i: int| 0 <= i < backends@.len() ==> (#[trigger] backends@[i]).weight > 0,
    ensures
        match r {
            Err(e) => total_weight(backends.deep_view()) > usize::MAX && e.message@
                == "router backend weights overflow"@,
            Ok(list) => {
                let all = backends.deep_view();
                &&& total_weight(all) <= usize::MAX
                &&& list@.len() == all.len()
                &&& forall|i: int|
                    0 <= i < list@.len() ==> #[trigger] list@[i] == attempts(
                        all,
                        slot_backend(all, (counter as nat) % total_weight(all), 0),
                    )[i]
            },
        },
{
    let ghost all = backends.deep_view();
    let total = match total_backend_weight(backends) {
        Err(e) => {
            return Err(e);
        },
        Ok(n) => n,
    };
    proof {
        assert(all[0] == backends@[0]@);
        weight_grows(all, 1, all.len() as int);
        assert(weight_upto(all, 1) == weight_upto(all, 0) + all[0].weight as nat);
    }
    let start = weighted_backend_index(backends, counter % total);
    let n: usize = backends.len();
    proof {
        slot_in_bounds(all, (counter % total) as nat, 0);
    }
    let mut out: Vec<usize> = Vec::new();
    let mut i: usize = 0;
    while i < n
        invariant
            n == backends@.len(),
            n == all.len(),
            0 < n,
            start < n,
            i <= n,
            out@.len() == i,
            forall|j: int| 0 <= j < i ==> #[trigger] out@[j] == attempts(all, start as int)[j],
        decreases n - i,
    {
        let at: usize = if start < n - i {
            start + i
        } else {
            start - (n - i)
        };
        proof {
            let sum = start + i;
            if sum < n {
                assert(sum % (n as int) == sum) by (nonlinear_arith)
                    requires
                        0 <= sum < n,
                ;
            } else {
                assert(sum % (n as int) == sum - n) by (nonlinear_arith)
                    requires
                        n <= sum < 2 * n,
                        0 < n,
                ;
            }
        }
        out.push(at);
        i += 1;
    }
    Ok(out)
}

proof fn slot_in_bounds(list: Seq<BackendModel>, slot: nat, at: int)
    requires
        0 <= at <= list.len(),
        list.len() > 0,
    ensures
        0 <= slot_backend(list, slot, at) < list.len(),
    decreases list.len() - at,
{
    if at < list.len() && slot >= list[at].weight {
        slot_in_bounds(list, (slot - list[at].weight) as nat, at + 1);
    }
}

// ---------------------------------------------------------------------------------------------
// Addresses
// ---------------------------------------------------------------------------------------------
/// A backend's address; an IPv6 host stands in brackets.
pub open spec fn address(b: BackendModel) -> Seq<char> {
    if search::has_char(b.host, ':') && !search::starts_with(b.host, "["@) {
        "["@ + b.host + "]:"@ + num::decimal(b.port as nat)
    } else {
        b.host + ":"@ + num::decimal(b.port as nat)
    }
}

pub fn backend_address(backend: &BackendConfig) -> (r: String)
    ensures
        r@ == address(backend@),
{
    let host = backend.host.as_str();
    let c = text::chars_of(host);
    let port = num::u64_text(backend.port as u64);
    if search::chars_have(&c, ':') && !search::text_starts_with(host, "[") {
        error::cat4("[", host, "]:", port.as_str())
    } else {
        error::cat3(host, ":", port.as_str())
    }
}

pub open spec fn bracket_fn() -> spec_fn(char) -> bool {
    |c: char| c == '[' || c == ']'
}

/// A text without brackets at its ends.
pub open spec fn unbracketed(s: Seq<char>) -> Seq<char> {
    text::trim_end_by(text::trim_start_by(s, bracket_fn()), bracket_fn())
}

fn without_brackets(c: &[char]) -> (r: String)
    ensures
        r@ == unbracketed(c@),
{
    let ghost p = bracket_fn();
    let n: usize = c.len();
    let mut a: usize = 0;
    assert(c@.subrange(0, n as int) =~= c@);
    while a < n && (c[a] == '[' || c[a] == ']')
        invariant
            n == c@.len(),
            a <= n,
            p == bracket_fn(),
            text::trim_start_by(c@.subrange(a as int, n as int), p) == text::trim_start_by(c@, p),
        decreases n - a,
    {
        assert(c@.subrange(a as int, n as int).subrange(1, n - a) =~= c@.subrange(
            a + 1,
            n as int,
        ));
        a += 1;
    }
    let ghost front = c@.subrange(a as int, n as int);
    let mut b: usize = n;
    while b > a && (c[b - 1] == '[' || c[b - 1] == ']')
        invariant
            n == c@.len(),
            a <= b <= n,
            p == bracket_fn(),
            text::trim_end_by(c@.subrange(a as int, b as int), p) == text::trim_end_by(front, p),
        decreases b,
    {
        assert(c@.subrange(a as int, b as int).drop_last() =~= c@.subrange(a as int, b - 1));
        b -= 1;
    }
    text::slice_text(c, a, b)
}

/// The backend that `HOST:PORT` names.
pub open spec fn backend_named(value: Seq<char>) -> Result<BackendModel, Seq<char>> {
    match search::rfind_char(value, ':') {
        None => Err("backend must be HOST:PORT"@),
        Some(i) => match num::parsed(value.skip(i + 1), u16::MAX as nat) {
            None => Err("parse backend port"@),
            Some(port) => Ok(
                BackendModel { host: unbracketed(value.take(i)), port: port as u16, weight: 1 },
            ),
        },
    }
}

pub fn parse_backend(value: &str) -> (r: DbResult<BackendConfig>)
    ensures
        error::outcome(r) == backend_named(value@),
{
    let c = text::chars_of(value);
    match search::rfind_chars(&c, ':') {
        None => Err(DbError::of("backend must be HOST:PORT")),
        Some(i) => {
            let n: usize = c.len();
            assert(i < n);
            let tail = text::copy_chars(&c, i + 1, n);
            assert(tail@ =~= c@.skip(i + 1));
            match num::parse_up_to(&tail, 65535) {
                None => Err(DbError::of("parse backend port")),
                Some(port) => {
                    let head = text::copy_chars(&c, 0, i);
                    assert(head@ =~= c@.take(i as int));
                    Ok(
                        BackendConfig {
                            host: without_brackets(&head),
                            port: port as u16,
                            weight: 1,
                        },
                    )
                },
            }
        },
    }
}

// ---------------------------------------------------------------------------------------------
// Validation
// ---------------------------------------------------------------------------------------------
pub open spec fn backend_fault(b: BackendModel) -> Option<Seq<char>> {
    if text::trim(b.host).len() == 0 || b.port == 0 {
        Some("router backend must have a host and non-zero port"@)
    } else if b.weight == 0 {
        Some("router backend weight must be non-zero"@)
    } else {
        None
    }
}

/// The fault of the first faulty backend from the `at`-th on.
pub open spec fn backends_fault(list: Seq<BackendModel>, at: int) -> Option<Seq<char>>
    decreases list.len() - at,
{
    if at < 0 || at >= list.len() {
        None
    } else {
        match backend_fault(list[at]) {
            Some(e) => Some(e),
            None => backends_fault(list, at + 1),
        }
    }
}

/// Why a configuration cannot be used.
pub open spec fn router_fault(c: RouterConfig) -> Option<Seq<char>> {
    if c.listen_port == 0 {
        Some("router listen_port must be non-zero"@)
    } else if c.backends@.len() == 0 {
        Some("router requires at least one backend"@)
    } else if c.max_connections == 0 {
        Some("router max_connections must be non-zero"@)
    } else if c.connect_timeout_ms == 0 {
        Some("router connect_timeout_ms must be non-zero"@)
    } else if backends_fault(c.backends.deep_view(), 0) is Some {
        backends_fault(c.backends.deep_view(), 0)
    } else if total_weight(c.backends.deep_view()) > usize::MAX {
        Some("router backend weights overflow"@)
    } else {
        None
    }
}

impl RouterConfig {
    /// A configuration with given backends and the defaults for the rest.
    pub fn with_backends(backends: Vec<BackendConfig>) -> (r: Self)
        ensures
            r.listen_host@ == "0.0.0.0"@,
            r.listen_port == 13306,
            r.backends == backends,
            r.connect_timeout_ms == 2000,
            r.max_connections == 4096,
            r.tcp_nodelay,
    {
        RouterConfig {
            listen_host: text::copy_text("0.0.0.0"),
            listen_port: 13306,
            backends: backends,
            connect_timeout_ms: 2000,
            max_connections: 4096,
            tcp_nodelay: true,
        }
    }

    pub fn validate(&self) -> (r: DbResult<()>)
        ensures
            match router_fault(*self) {
                Some(e) => r matches Err(x) && x.message@ == e,
                None => r is Ok,
            },
    {
        if self.listen_port == 0 {
            return Err(DbError::of("router listen_port must be non-zero"));
        }
        if self.backends.len() == 0 {
            return Err(DbError::of("router requires at least one backend"));
        }
        if self.max_connections == 0 {
            return Err(DbError::of("router max_connections must be non-zero"));
        }
        if self.connect_timeout_ms == 0 {
            return Err(DbError::of("router connect_timeout_ms must be non-zero"));
        }
        let ghost all = self.backends.deep_view();
        let mut i: usize = 0;
        while i < self.backends.len()
            invariant
                i <= self.backends@.len(),
                all == self.backends.deep_view(),
                self.listen_port != 0,
                self.backends@.len() != 0,
                self.max_connections != 0,
                self.connect_timeout_ms != 0,
                backends_fault(all, i as int) == backends_fault(all, 0),
            decreases self.backends@.len() - i,
        {
            assert(all[i as int] == self.backends@[i as int]@);
            let c = text::chars_of(self.backends[i].host.as_str());
            let host = text::trim_chars(&c);
            if host.len() == 0 || self.backends[i].port == 0 {
                return Err(DbError::of("router backend must have a host and non-zero port"));
            }
            if self.backends[i].weight == 0 {
                return Err(DbError::of("router backend weight must be non-zero"));
            }
            i += 1;
        }
        let list = self.backends.as_slice();
        assert(list.deep_view() =~= all);
        match total_backend_weight(list) {
            Err(e) => Err(e),
            Ok(_) => Ok(()),
        }
    }
}

/// The address that a router listens at.
pub fn listen_address(config: &RouterConfig) -> (r: String)
    ensures
        r@ == config.listen_host@ + ":"@ + num::decimal(config.listen_port as nat),
{
    let port = num::u64_text(config.listen_port as u64);
    error::cat3(config.listen_host.as_str(), ":", port.as_str())
}

/// What a client is told once no backend could be reached.
pub fn unavailable(last_error: &str) -> (r: DbError)
    ensures
        r.message@ == "all MySQL backends unavailable: "@ + last_error@,
{
    DbError::new(error::cat2("all MySQL backends unavailable: ", last_error))
}

// ---------------------------------------------------------------------------------------------
// Laws
// ---------------------------------------------------------------------------------------------
/// The slots of a backend are those between the weights before it and the weights up to it, so
/// that a backend is chosen as often as its weight says.
pub proof fn slots_follow_weights(list: Seq<BackendModel>, slot: nat, i: int)
    requires
        0 <= i < list.len(),
        weight_upto(list, i) <= slot < weight_upto(list, i + 1),
    ensures
        slot_backend(list, slot, 0) == i,
{
    slots_from(list, slot, i, 0);
}

proof fn slots_from(list: Seq<BackendModel>, slot: nat, i: int, at: int)
    requires
        0 <= at <= i < list.len(),
        weight_upto(list, i) <= slot < weight_upto(list, i + 1),
    ensures
        slot_backend(list, (slot - weight_upto(list, at)) as nat, at) == i,
    decreases i - at,
{
    weight_grows(list, at, i);
    if at < i {
        weight_grows(list, at + 1, i);
        slots_from(list, slot, i, at + 1);
    }
}

/// Every backend is tried once.
pub proof fn every_backend_is_tried(list: Seq<BackendModel>, start: int, target: int)
    requires
        0 <= start < list.len(),
        0 <= target < list.len(),
    ensures
        attempts(list, start).contains(target),
{
    let n = list.len() as int;
    let i = if target >= start {
        target - start
    } else {
        target - start + n
    };
    if target >= start {
        assert((start + i) % n == target) by (nonlinear_arith)
            requires
                start + i == target,
                0 <= target < n,
        ;
    } else {
        assert((start + i) % n == target) by (nonlinear_arith)
            requires
                start + i == target + n,
                0 <= target < n,
        ;
    }
    assert(attempts(list, start)[i] == target);
}

} // verus!
