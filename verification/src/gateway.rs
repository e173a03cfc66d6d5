//! Registration of the console's routes with the ZimaOS gateway: the settings read from the
//! environment, the route paths, the management URL and the retries.

use vstd::prelude::*;
use vstd::string::*;

use crate::num::{
    dec_nat, ipv4_text, ipv4_to_text, lemma_dec_nat_digits, parse_u64_radix, parse_u64_spec,
    push_dec_u64,
};
use crate::uptime::opt_view;
use crate::text::{
    ascii_lower, drop_trailing, eq_str, is_ws, lemma_trim_padded, to_ascii_lowercase, trim, trim_end_char, trim_str,
};

verus! {

/// The words read as `true` in a flag.
pub open spec fn is_true_word(w: Seq<char>) -> bool {
    w == "1"@ || w == "true"@ || w == "yes"@ || w == "on"@
}

/// The words read as `false` in a flag.
pub open spec fn is_false_word(w: Seq<char>) -> bool {
    w == "0"@ || w == "false"@ || w == "no"@ || w == "off"@
}

/// A flag read from the value of an environment variable (`None` when it is unset): the
/// value, trimmed and in lower case, is one of the true or false words; anything else, or no
/// value, gives the default.
pub open spec fn env_bool_spec(raw: Option<Seq<char>>, default: bool) -> bool {
    match raw {
        None => default,
        Some(r) => {
            let w = ascii_lower(trim(r));
            if is_true_word(w) {
                true
            } else if is_false_word(w) {
                false
            } else {
                default
            }
        },
    }
}

/// A flag read from the value of an environment variable.
pub fn parse_env_bool(raw: &Option<String>, default: bool) -> (r: bool)
    ensures
        r == env_bool_spec(opt_view(*raw), default),
{
    match raw {
        None => default,
        Some(v) => {
            let t = trim_str(v.as_str());
            let w = to_ascii_lowercase(t.as_str());
            let s = w.as_str();
            if eq_str(s, "1") || eq_str(s, "true") || eq_str(s, "yes") || eq_str(s, "on") {
                true
            } else if eq_str(s, "0") || eq_str(s, "false") || eq_str(s, "no") || eq_str(
                s,
                "off",
            ) {
                false
            } else {
                default
            }
        },
    }
}

/// A number read from the value of an environment variable: the trimmed value as a decimal
/// `u64`, or the default when it is unset or does not parse.
pub open spec fn env_u64_spec(raw: Option<Seq<char>>, default: u64) -> u64 {
    match raw {
        None => default,
        Some(r) => match parse_u64_spec(trim(r), 10) {
            Some(v) => v,
            None => default,
        },
    }
}

/// A number read from the value of an environment variable.
pub fn parse_env_u64(raw: &Option<String>, default: u64) -> (r: u64)
    ensures
        r == env_u64_spec(opt_view(*raw), default),
{
    match raw {
        None => default,
        Some(v) => {
            let t = trim_str(v.as_str());
            match parse_u64_radix(t.as_str(), 10) {
                Some(n) => n,
                None => default,
            }
        },
    }
}

/// A variable set to the decimal text of a number, with or without surrounding whitespace,
/// reads as that number whatever the default.
pub proof fn law_env_u64_reads_decimal(n: u64, default: u64, pad_left: Seq<char>, pad_right: Seq<char>)
    requires
        forall|i: int| 0 <= i < pad_left.len() ==> is_ws(#[trigger] pad_left[i]),
        forall|i: int| 0 <= i < pad_right.len() ==> is_ws(#[trigger] pad_right[i]),
    ensures
        env_u64_spec(Some(pad_left + dec_nat(n as nat) + pad_right), default) == n,
{
    let d = dec_nat(n as nat);
    lemma_dec_nat_digits(n as nat);
    assert(crate::num::char_digit(d[0], 10) is Some);
    assert(crate::num::char_digit(d[d.len() - 1], 10) is Some);
    lemma_trim_padded(pad_left, d, pad_right);
    crate::num::law_u64_decimal_roundtrip(n);
}

/// A gateway route path made regular: trimmed, with a leading `/`, without trailing `/`s;
/// `None` for a blank path and for the root.
pub open spec fn normalize_route_spec(path: Seq<char>) -> Option<Seq<char>> {
    let t = trim(path);
    if t.len() == 0 {
        None
    } else {
        let rooted = if t[0] == '/' {
            t
        } else {
            seq!['/'] + t
        };
        let route = if rooted.len() > 1 {
            drop_trailing(rooted, '/')
        } else {
            rooted
        };
        if route == "/"@ {
            None
        } else {
            Some(route)
        }
    }
}

/// A gateway route path made regular.
pub fn normalize_gateway_route_path(path: &str) -> (r: Option<String>)
    ensures
        r.deep_view() == normalize_route_spec(path@),
{
    proof {
        reveal_strlit("/");
    }
    let t = trim_str(path);
    if t.as_str().is_empty() {
        return None;
    }
    let tv = crate::text::chars_of(t.as_str());
    let rooted = if tv[0] == '/' {
        t
    } else {
        let mut r = String::from_str("/");
        r.append(t.as_str());
        assert(r@ =~= seq!['/'] + t@);
        r
    };
    let ghost spec_rooted = if t@[0] == '/' {
        t@
    } else {
        seq!['/'] + t@
    };
    assert(rooted@ == spec_rooted);
    let rv = crate::text::chars_of(rooted.as_str());
    let route = if rv.len() > 1 {
        trim_end_char(rooted.as_str(), '/')
    } else {
        rooted
    };
    if eq_str(route.as_str(), "/") {
        return None;
    }
    Some(route)
}

proof fn lemma_drop_trailing_shape(s: Seq<char>, c: char)
    ensures
        drop_trailing(s, c).len() <= s.len(),
        drop_trailing(s, c) == s.subrange(0, drop_trailing(s, c).len() as int),
        drop_trailing(s, c).len() > 0 ==> drop_trailing(s, c).last() != c,
    decreases s.len(),
{
    if s.len() > 0 && s.last() == c {
        lemma_drop_trailing_shape(s.drop_last(), c);
        assert(s.drop_last().subrange(0, drop_trailing(s, c).len() as int) =~= s.subrange(
            0,
            drop_trailing(s, c).len() as int,
        ));
    } else {
        assert(s.subrange(0, s.len() as int) =~= s);
    }
}

proof fn lemma_trim_plain(s: Seq<char>)
    requires
        s.len() > 0,
        !is_ws(s[0]),
        !is_ws(s.last()),
    ensures
        trim(s) == s,
{
    assert(crate::text::trim_start(s) == s);
    assert(crate::text::trim_end(s) == s);
}

/// A route path that comes out of normalizing, and ends with no whitespace, comes out of
/// normalizing again unchanged. (A path such as `/a /` normalizes to `/a `, which
/// normalizes to `/a`; and `//` normalizes to the empty path, which normalizes to nothing.)
pub proof fn lemma_normalize_route_idempotent(path: Seq<char>)
    requires
        normalize_route_spec(path) matches Some(x) && x.len() > 0 && !is_ws(x.last()),
    ensures
        normalize_route_spec(normalize_route_spec(path)->0) == normalize_route_spec(path),
{
    reveal_strlit("/");
    let x = normalize_route_spec(path)->0;
    let t = trim(path);
    let rooted = if t[0] == '/' {
        t
    } else {
        seq!['/'] + t
    };
    assert(rooted[0] == '/');
    if rooted.len() > 1 {
        lemma_drop_trailing_shape(rooted, '/');
        assert(x[0] == rooted[0]);
    }
    assert(x[0] == '/');
    lemma_trim_plain(x);
    if x.len() > 1 {
        if rooted.len() > 1 {
            lemma_drop_trailing_shape(rooted, '/');
        }
        assert(x.last() != '/');
        assert(drop_trailing(x, '/') == x);
    } else {
        assert(x =~= "/"@);
    }
}

/// The default location of the gateway's management URL file, and the fallback.
pub open spec fn default_management_files() -> Seq<Seq<char>> {
    seq!["/run/casaos/management.url"@, "/var/run/casaos/management.url"@]
}

/// The files to read the gateway's management URL from: the configured file, trimmed, where
/// one is set and not blank; else the default and the fallback.
pub fn management_url_candidates(configured: &Option<String>) -> (r: Vec<String>)
    ensures
        r.deep_view() == match *configured {
            Some(c) => if trim(c@).len() > 0 {
                seq![trim(c@)]
            } else {
                default_management_files()
            },
            None => default_management_files(),
        },
{
    let mut r: Vec<String> = Vec::new();
    if let Some(c) = configured {
        let t = trim_str(c.as_str());
        if !t.as_str().is_empty() {
            r.push(t);
            assert(r.deep_view() =~= seq![trim(c@)]);
            return r;
        }
    }
    r.push(String::from_str("/run/casaos/management.url"));
    r.push(String::from_str("/var/run/casaos/management.url"));
    assert(r.deep_view() =~= default_management_files());
    r
}

/// The management URL held in a file's content: trimmed, without trailing `/`s; `None` when
/// nothing is left.
pub open spec fn management_url_spec(content: Seq<char>) -> Option<Seq<char>> {
    let u = drop_trailing(trim(content), '/');
    if u.len() > 0 {
        Some(u)
    } else {
        None
    }
}

/// The management URL held in a file's content.
pub fn management_url_from_content(content: &str) -> (r: Option<String>)
    ensures
        r.deep_view() == management_url_spec(content@),
{
    let t = trim_str(content);
    let u = trim_end_char(t.as_str(), '/');
    if u.as_str().is_empty() {
        None
    } else {
        Some(u)
    }
}

/// The gateway's endpoint for routes, under its management URL.
pub fn gateway_routes_endpoint(management_url: &str) -> (r: String)
    ensures
        r@ == management_url@ + "/v1/gateway/routes"@,
{
    let mut r = String::from_str(management_url);
    r.append("/v1/gateway/routes");
    r
}

/// The address the console's API server listens on. An IPv6 address carries the text that
/// `std::net::Ipv6Addr` displays for it.
#[derive(Debug, PartialEq, Eq)]
pub enum ServerAddr {
    /// An IPv4 address by its big-endian value.
    V4(u32),
    /// An IPv6 address by its eight segments, with its display text.
    V6 { segments: [u16; 8], text: String },
}

/// The host the gateway reaches the API server at: loopback in place of an unspecified
/// address, else the address itself.
pub open spec fn target_host(addr: ServerAddr) -> Seq<char> {
    match addr {
        ServerAddr::V4(a) => if a == 0 {
            "127.0.0.1"@
        } else {
            ipv4_text(a)
        },
        ServerAddr::V6 { segments, text } => if forall|i: int|
            0 <= i < 8 ==> #[trigger] segments@[i] == 0 {
            "::1"@
        } else {
            text@
        },
    }
}

/// The URL the gateway forwards to: `http://`, the host (in brackets where it holds a `:`), a
/// `:` and the port.
pub open spec fn gateway_target_spec(addr: ServerAddr, port: u16) -> Seq<char> {
    let host = target_host(addr);
    if host.contains(':') {
        "http://["@ + host + "]:"@ + dec_nat(port as nat)
    } else {
        "http://"@ + host + ":"@ + dec_nat(port as nat)
    }
}

/// The URL the gateway forwards to.
pub fn build_gateway_target(addr: &ServerAddr, port: u16) -> (r: String)
    ensures
        r@ == gateway_target_spec(*addr, port),
{
    let host = match addr {
        ServerAddr::V4(a) => if *a == 0 {
            String::from_str("127.0.0.1")
        } else {
            ipv4_to_text(*a)
        },
        ServerAddr::V6 { segments, text } => {
            let mut all_zero = true;
            let mut i: usize = 0;
            while i < 8
                invariant
                    i <= 8,
                    all_zero == forall|k: int| 0 <= k < i ==> #[trigger] segments@[k] == 0,
                decreases 8 - i,
            {
                if segments[i] != 0 {
                    all_zero = false;
                }
                i = i + 1;
            }
            if all_zero {
                String::from_str("::1")
            } else {
                text.clone()
            }
        },
    };
    let hv = crate::text::chars_of(host.as_str());
    let mut has_colon = false;
    let mut j: usize = 0;
    while j < hv.len()
        invariant
            j <= hv.len(),
            has_colon == hv@.subrange(0, j as int).contains(':'),
        decreases hv.len() - j,
    {
        if hv[j] == ':' {
            has_colon = true;
            assert(hv@.subrange(0, j + 1)[j as int] == ':');
        } else {
            assert(hv@.subrange(0, j + 1) =~= hv@.subrange(0, j as int).push(hv[j as int]));
        }
        j = j + 1;
    }
    assert(hv@.subrange(0, hv.len() as int) =~= hv@);
    let mut r = if has_colon {
        let mut r = String::from_str("http://[");
        r.append(host.as_str());
        r.append("]:");
        r
    } else {
        let mut r = String::from_str("http://");
        r.append(host.as_str());
        r.append(":");
        r
    };
    push_dec_u64(&mut r, port as u64);
    r
}

/// Why no route is registered with the gateway.
#[derive(Debug, PartialEq, Eq)]
pub enum GatewaySkip {
    /// Registration is switched off.
    Disabled,
    /// The configured route path is blank or the root.
    InvalidRoute,
}

/// The console's route to register, from the switch (default on) and the configured path
/// (default `/mt`).
pub fn gateway_route(register: &Option<String>, route: &Option<String>) -> (r: Result<
    String,
    GatewaySkip,
>)
    ensures
        !env_bool_spec(opt_view(*register), true) ==> r is Err && r->Err_0 is Disabled,
        env_bool_spec(opt_view(*register), true) ==> match normalize_route_spec(
            match *route {
                Some(p) => p@,
                None => "/mt"@,
            },
        ) {
            Some(x) => r matches Ok(s) && s@ == x,
            None => r is Err && r->Err_0 is InvalidRoute,
        },
{
    if !parse_env_bool(register, true) {
        return Err(GatewaySkip::Disabled);
    }
    let normalized = match route {
        Some(p) => normalize_gateway_route_path(p.as_str()),
        None => normalize_gateway_route_path("/mt"),
    };
    match normalized {
        Some(x) => Ok(x),
        None => Err(GatewaySkip::InvalidRoute),
    }
}

/// What became of the API route.
#[derive(Debug, PartialEq, Eq)]
pub enum ApiRouteOutcome {
    /// It is registered too.
    Added,
    /// It is the console's route already.
    Duplicate,
    /// The configured path is blank or the root.
    Invalid,
    /// Its registration is switched off.
    Disabled,
}

/// The routes to register: the console's route, then the API route (default `/api/v1`,
/// switch default on) where it is valid and differs from the first.
pub fn gateway_routes(route: String, api_register: &Option<String>, api_route: &Option<String>) -> (r: (
    Vec<String>,
    ApiRouteOutcome,
))
    ensures
        ({
            let api = normalize_route_spec(
                match *api_route {
                    Some(p) => p@,
                    None => "/api/v1"@,
                },
            );
            if !env_bool_spec(opt_view(*api_register), true) {
                r.0.deep_view() == seq![route@] && r.1 is Disabled
            } else {
                match api {
                    None => r.0.deep_view() == seq![route@] && r.1 is Invalid,
                    Some(a) => if a == route@ {
                        r.0.deep_view() == seq![route@] && r.1 is Duplicate
                    } else {
                        r.0.deep_view() == seq![route@, a] && r.1 is Added
                    },
                }
            }
        }),
{
    let mut routes: Vec<String> = Vec::new();
    let ghost first = route@;
    routes.push(route);
    assert(routes.deep_view() =~= seq![first]);
    if !parse_env_bool(api_register, true) {
        return (routes, ApiRouteOutcome::Disabled);
    }
    let api = match api_route {
        Some(p) => normalize_gateway_route_path(p.as_str()),
        None => normalize_gateway_route_path("/api/v1"),
    };
    match api {
        None => (routes, ApiRouteOutcome::Invalid),
        Some(a) => {
            if eq_str(routes[0].as_str(), a.as_str()) {
                (routes, ApiRouteOutcome::Duplicate)
            } else {
                let ghost av = a@;
                routes.push(a);
                assert(routes.deep_view() =~= seq![first, av]);
                (routes, ApiRouteOutcome::Added)
            }
        },
    }
}

/// How many times a route registration is tried.
pub const GATEWAY_REGISTER_MAX_RETRIES: usize = 10;

/// What follows one attempt to register a route.
#[derive(Debug, PartialEq, Eq)]
pub enum RegistrationStep {
    /// The gateway accepted the route.
    Registered,
    /// Pause a second, then make attempt number `next`.
    Retry { next: usize },
    /// Pause a second, then give up.
    GiveUp,
}

/// Whether the gateway accepted a route: it answered with a success status.
pub fn status_accepted(status: u16) -> (r: bool)
    ensures
        r == (200 <= status < 300),
{
    200 <= status && status < 300
}

/// What follows attempt number `attempt` (from 1) to register a route, which the gateway
/// accepted (a success status) or not.
pub fn registration_step(attempt: usize, accepted: bool) -> (r: RegistrationStep)
    requires
        1 <= attempt <= GATEWAY_REGISTER_MAX_RETRIES,
    ensures
        accepted ==> r is Registered,
        !accepted && attempt < GATEWAY_REGISTER_MAX_RETRIES ==> r == (RegistrationStep::Retry {
            next: (attempt + 1) as usize,
        }),
        !accepted && attempt == GATEWAY_REGISTER_MAX_RETRIES ==> r is GiveUp,
{
    if accepted {
        RegistrationStep::Registered
    } else if attempt < GATEWAY_REGISTER_MAX_RETRIES {
        RegistrationStep::Retry { next: attempt + 1 }
    } else {
        RegistrationStep::GiveUp
    }
}

} // verus!
