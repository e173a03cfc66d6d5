//! Request and response models of the uptime monitor, with their validation.

use vstd::prelude::*;
use vstd::string::*;

use crate::num::{dec_int, dec_nat, parse_i64, parse_i64_spec, parse_u64_radix, parse_u64_spec, push_dec_i64, push_dec_u64};
use crate::text::{trim, trim_str, utf8_longer_than};
use vstd::utf8::encode_utf8;

verus! {

/// Errors of the uptime monitor, each with its message.
#[derive(Debug, PartialEq, Eq)]
pub enum AppError {
    BadRequest(String),
    Unauthorized(String),
    NotFound(String),
    Conflict(String),
    Internal(String),
}

pub enum AppErrorView {
    BadRequest(Seq<char>),
    Unauthorized(Seq<char>),
    NotFound(Seq<char>),
    Conflict(Seq<char>),
    Internal(Seq<char>),
}

impl View for AppError {
    type V = AppErrorView;

    open spec fn view(&self) -> AppErrorView {
        match self {
            AppError::BadRequest(m) => AppErrorView::BadRequest(m@),
            AppError::Unauthorized(m) => AppErrorView::Unauthorized(m@),
            AppError::NotFound(m) => AppErrorView::NotFound(m@),
            AppError::Conflict(m) => AppErrorView::Conflict(m@),
            AppError::Internal(m) => AppErrorView::Internal(m@),
        }
    }
}

/// The view of a validation outcome: `None` when it passes, else its error.
pub open spec fn check_view(r: Result<(), AppError>) -> Option<AppErrorView> {
    match r {
        Ok(_) => None,
        Err(e) => Some(e@),
    }
}

/// The envelope of every API answer.
#[derive(Debug)]
pub struct ApiResponse<T> {
    pub success: bool,
    pub data: Option<T>,
    pub error: Option<String>,
    pub message: Option<String>,
}

impl<T> ApiResponse<T> {
    pub fn success(data: T) -> (r: Self)
        ensures
            r.success,
            r.data == Some(data),
            r.error is None,
            r.message is None,
    {
        ApiResponse { success: true, data: Some(data), error: None, message: None }
    }

    pub fn error(error: String) -> (r: Self)
        ensures
            !r.success,
            r.data is None,
            r.error == Some(error),
            r.message is None,
    {
        ApiResponse { success: false, data: None, error: Some(error), message: None }
    }

    pub fn message(message: String) -> (r: Self)
        ensures
            r.success,
            r.data is None,
            r.error is None,
            r.message == Some(message),
    {
        ApiResponse { success: true, data: None, error: None, message: Some(message) }
    }
}

/// One page of a listing.
#[derive(Debug)]
pub struct PaginatedResponse<T> {
    pub items: Vec<T>,
    pub total: u64,
    pub page: u32,
    pub per_page: u32,
    pub total_pages: u32,
}

/// The page asked for, both parts optional.
#[derive(Debug, Default)]
pub struct PaginationParams {
    pub page: Option<u32>,
    pub per_page: Option<u32>,
}

impl PaginationParams {
    /// The page number, counted from one: absent or zero means the first page.
    pub fn page(&self) -> (r: u32)
        ensures
            r >= 1,
            r == match self.page {
                Some(p) => if p >= 1 {
                    p
                } else {
                    1
                },
                None => 1,
            },
    {
        let p = match self.page {
            Some(p) => p,
            None => 1,
        };
        if p >= 1 {
            p
        } else {
            1
        }
    }

    /// The page size: `default` when absent, then held between one and `max`.
    pub fn per_page(&self, default: u32, max: u32) -> (r: u32)
        requires
            max >= 1,
        ensures
            1 <= r <= max,
            ({
                let v = match self.per_page {
                    Some(v) => v,
                    None => default,
                };
                r == if v < 1 {
                    1
                } else if v > max {
                    max
                } else {
                    v
                }
            }),
    {
        let v = match self.per_page {
            Some(v) => v,
            None => default,
        };
        if v < 1 {
            1
        } else if v > max {
            max
        } else {
            v
        }
    }
}

/// The offset of the first row of `page` and the number of pages that `total` rows fill.
pub fn page_window(page: u32, per_page: u32, total: u64) -> (r: (u32, u32))
    requires
        page >= 1,
        per_page >= 1,
        (page - 1) * per_page <= u32::MAX,
        total + per_page <= u64::MAX,
    ensures
        r.0 == (page - 1) * per_page,
        r.1 == (if total == 0 {
            0
        } else {
            ((total + per_page - 1) / (per_page as int)) as u32
        }),
        total > 0 && (total + per_page - 1) / (per_page as int) <= u32::MAX ==> (r.1 - 1) * per_page
            < total <= r.1 * per_page,
        total == 0 ==> r.1 == 0,
{
    let offset = (page - 1) * per_page;
    let total_pages = if total == 0 {
        0
    } else {
        #[verifier::truncate]
        (((total + per_page as u64 - 1) / (per_page as u64)) as u32)
    };
    proof {
        let t = total as int;
        let k = per_page as int;
        let n = (t + k - 1) / k;
        if t > 0 && n <= u32::MAX {
            assert(total_pages as int == n);
            assert((n - 1) * k < t <= n * k) by (nonlinear_arith)
                requires
                    k >= 1,
                    t >= 1,
                    n == (t + k - 1) / k,
            ;
        }
    }
    (offset, total_pages)
}

/// `field is required`.
pub open spec fn required_msg(field: Seq<char>) -> Seq<char> {
    field + " is required"@
}

/// `field must be at most max characters`.
pub open spec fn too_long_msg(field: Seq<char>, max: nat) -> Seq<char> {
    field + " must be at most "@ + dec_nat(max) + " characters"@
}

/// The outcome of `validate_non_empty`: the trimmed value must be present and at most
/// `max_len` bytes long.
pub open spec fn non_empty_check(field: Seq<char>, value: Seq<char>, max_len: nat) -> Option<
    AppErrorView,
> {
    let t = trim(value);
    if t.len() == 0 {
        Some(AppErrorView::BadRequest(required_msg(field)))
    } else if encode_utf8(t).len() > max_len {
        Some(AppErrorView::BadRequest(too_long_msg(field, max_len)))
    } else {
        None
    }
}

/// The outcome of `validate_optional`: a present value, trimmed, must be at most `max_len`
/// bytes long.
pub open spec fn optional_check(field: Seq<char>, value: Option<Seq<char>>, max_len: nat) -> Option<
    AppErrorView,
> {
    match value {
        Some(v) => if encode_utf8(trim(v)).len() > max_len {
            Some(AppErrorView::BadRequest(too_long_msg(field, max_len)))
        } else {
            None
        },
        None => None,
    }
}

/// The first failing check of a sequence of checks.
pub open spec fn first_failure(checks: Seq<Option<AppErrorView>>) -> Option<AppErrorView>
    decreases checks.len(),
{
    if checks.len() == 0 {
        None
    } else {
        match checks[0] {
            Some(e) => Some(e),
            None => first_failure(checks.drop_first()),
        }
    }
}

pub open spec fn port_check(port: int) -> Option<AppErrorView> {
    if 1 <= port <= 65535 {
        None
    } else {
        Some(AppErrorView::BadRequest("port must be between 1 and 65535"@))
    }
}

pub open spec fn max_connections_check(max_connections: int) -> Option<AppErrorView> {
    if 1 <= max_connections <= 10000 {
        None
    } else {
        Some(AppErrorView::BadRequest("max_connections must be between 1 and 10000"@))
    }
}

fn too_long_error(field: &str, max_len: usize) -> (e: AppError)
    ensures
        e@ == AppErrorView::BadRequest(too_long_msg(field@, max_len as nat)),
{
    let mut m = String::from_str(field);
    m.append(" must be at most ");
    push_dec_u64(&mut m, max_len as u64);
    m.append(" characters");
    AppError::BadRequest(m)
}

/// A required text field: present after trimming and at most `max_len` bytes.
pub fn validate_non_empty(field: &str, value: &str, max_len: usize) -> (r: Result<(), AppError>)
    ensures
        check_view(r) == non_empty_check(field@, value@, max_len as nat),
{
    let trimmed = trim_str(value);
    if trimmed.as_str().is_empty() {
        let mut m = String::from_str(field);
        m.append(" is required");
        return Err(AppError::BadRequest(m));
    }
    if utf8_longer_than(trimmed.as_str(), max_len) {
        return Err(too_long_error(field, max_len));
    }
    Ok(())
}

/// An optional text field: when present, at most `max_len` bytes after trimming.
pub fn validate_optional(field: &str, value: Option<&str>, max_len: usize) -> (r: Result<
    (),
    AppError,
>)
    ensures
        check_view(r) == optional_check(
            field@,
            match value {
                Some(v) => Some(v@),
                None => None,
            },
            max_len as nat,
        ),
{
    if let Some(v) = value {
        let trimmed = trim_str(v);
        if utf8_longer_than(trimmed.as_str(), max_len) {
            return Err(too_long_error(field, max_len));
        }
    }
    Ok(())
}

pub open spec fn opt_view(o: Option<String>) -> Option<Seq<char>> {
    match o {
        Some(s) => Some(s@),
        None => None,
    }
}

fn opt_str(o: &Option<String>) -> (r: Option<&str>)
    ensures
        match r {
            Some(s) => opt_view(*o) == Some(s@),
            None => o is None,
        },
{
    match o {
        Some(s) => Some(s.as_str()),
        None => None,
    }
}

/// The checks of a new node, in the order they are made.
pub open spec fn node_payload_checks(
    name: Seq<char>,
    host: Seq<char>,
    port: int,
    protocol: Seq<char>,
    description: Option<Seq<char>>,
    max_connections: int,
    network_name: Seq<char>,
    network_secret: Option<Seq<char>>,
    mail: Option<Seq<char>>,
) -> Seq<Option<AppErrorView>> {
    seq![
        non_empty_check("name"@, name, 100),
        non_empty_check("host"@, host, 255),
        non_empty_check("protocol"@, protocol, 20),
        non_empty_check("network_name"@, network_name, 100),
        optional_check("description"@, description, 500),
        optional_check("network_secret"@, network_secret, 100),
        optional_check("mail"@, mail, 255),
        port_check(port),
        max_connections_check(max_connections),
    ]
}

/// Checks the fields of a new node; the first failing check gives the error.
pub fn validate_node_payload(
    name: &str,
    host: &str,
    port: i32,
    protocol: &str,
    description: Option<&str>,
    max_connections: i32,
    network_name: &str,
    network_secret: Option<&str>,
    mail: Option<&str>,
) -> (r: Result<(), AppError>)
    ensures
        check_view(r) == first_failure(
            node_payload_checks(
                name@,
                host@,
                port as int,
                protocol@,
                match description {
                    Some(v) => Some(v@),
                    None => None,
                },
                max_connections as int,
                network_name@,
                match network_secret {
                    Some(v) => Some(v@),
                    None => None,
                },
                match mail {
                    Some(v) => Some(v@),
                    None => None,
                },
            ),
        ),
{
    let ghost checks = node_payload_checks(
        name@,
        host@,
        port as int,
        protocol@,
        match description {
            Some(v) => Some(v@),
            None => None,
        },
        max_connections as int,
        network_name@,
        match network_secret {
            Some(v) => Some(v@),
            None => None,
        },
        match mail {
            Some(v) => Some(v@),
            None => None,
        },
    );
    proof {
        reveal_with_fuel(first_failure, 10);
    }
    validate_non_empty("name", name, 100)?;
    validate_non_empty("host", host, 255)?;
    validate_non_empty("protocol", protocol, 20)?;
    validate_non_empty("network_name", network_name, 100)?;
    validate_optional("description", description, 500)?;
    validate_optional("network_secret", network_secret, 100)?;
    validate_optional("mail", mail, 255)?;
    if !(1 <= port && port <= 65_535) {
        return Err(AppError::BadRequest(String::from_str("port must be between 1 and 65535")));
    }
    if !(1 <= max_connections && max_connections <= 10_000) {
        return Err(
            AppError::BadRequest(String::from_str("max_connections must be between 1 and 10000")),
        );
    }
    Ok(())
}


/// A node submitted for sharing.
#[derive(Debug)]
pub struct CreateNodeRequest {
    pub name: String,
    pub host: String,
    pub port: i32,
    pub protocol: String,
    pub description: Option<String>,
    pub max_connections: i32,
    pub allow_relay: bool,
    pub network_name: String,
    pub network_secret: Option<String>,
    pub mail: Option<String>,
}

impl CreateNodeRequest {
    pub fn validate(&self) -> (r: Result<(), AppError>)
        ensures
            check_view(r) == first_failure(
                node_payload_checks(
                    self.name@,
                    self.host@,
                    self.port as int,
                    self.protocol@,
                    opt_view(self.description),
                    self.max_connections as int,
                    self.network_name@,
                    opt_view(self.network_secret),
                    opt_view(self.mail),
                ),
            ),
    {
        validate_node_payload(
            self.name.as_str(),
            self.host.as_str(),
            self.port,
            self.protocol.as_str(),
            opt_str(&self.description),
            self.max_connections,
            self.network_name.as_str(),
            opt_str(&self.network_secret),
            opt_str(&self.mail),
        )
    }
}

/// Changes to a node; absent fields stay as they are.
#[derive(Debug, Default)]
pub struct UpdateNodeRequest {
    pub name: Option<String>,
    pub host: Option<String>,
    pub port: Option<i32>,
    pub protocol: Option<String>,
    pub description: Option<String>,
    pub max_connections: Option<i32>,
    pub is_active: Option<bool>,
    pub allow_relay: Option<bool>,
    pub network_name: Option<String>,
    pub network_secret: Option<String>,
    pub mail: Option<String>,
    pub tags: Option<Vec<String>>,
}

/// A required field's check, made only when the field is present.
pub open spec fn present_non_empty_check(field: Seq<char>, value: Option<Seq<char>>, max_len: nat) -> Option<
    AppErrorView,
> {
    match value {
        Some(v) => non_empty_check(field, v, max_len),
        None => None,
    }
}

/// The checks of a node update, in the order they are made.
pub open spec fn update_checks(r: UpdateNodeRequest) -> Seq<Option<AppErrorView>> {
    seq![
        present_non_empty_check("name"@, opt_view(r.name), 100),
        present_non_empty_check("host"@, opt_view(r.host), 255),
        present_non_empty_check("protocol"@, opt_view(r.protocol), 20),
        optional_check("description"@, opt_view(r.description), 500),
        match r.max_connections {
            Some(m) => max_connections_check(m as int),
            None => None,
        },
        match r.port {
            Some(p) => port_check(p as int),
            None => None,
        },
        optional_check("network_name"@, opt_view(r.network_name), 100),
        optional_check("network_secret"@, opt_view(r.network_secret), 100),
        optional_check("mail"@, opt_view(r.mail), 255),
    ]
}

impl UpdateNodeRequest {
    pub fn validate(&self) -> (r: Result<(), AppError>)
        ensures
            check_view(r) == first_failure(update_checks(*self)),
    {
        proof {
            reveal_with_fuel(first_failure, 10);
        }
        if let Some(name) = &self.name {
            validate_non_empty("name", name.as_str(), 100)?;
        }
        if let Some(host) = &self.host {
            validate_non_empty("host", host.as_str(), 255)?;
        }
        if let Some(protocol) = &self.protocol {
            validate_non_empty("protocol", protocol.as_str(), 20)?;
        }
        validate_optional("description", opt_str(&self.description), 500)?;
        if let Some(max_connections) = self.max_connections {
            if !(1 <= max_connections && max_connections <= 10_000) {
                return Err(
                    AppError::BadRequest(
                        String::from_str("max_connections must be between 1 and 10000"),
                    ),
                );
            }
        }
        if let Some(port) = self.port {
            if !(1 <= port && port <= 65_535) {
                return Err(AppError::BadRequest(String::from_str("port must be between 1 and 65535")));
            }
        }
        validate_optional("network_name", opt_str(&self.network_name), 100)?;
        validate_optional("network_secret", opt_str(&self.network_secret), 100)?;
        validate_optional("mail", opt_str(&self.mail), 255)?;
        Ok(())
    }
}

/// Filters of the public node listing.
#[derive(Debug, Default)]
pub struct NodeFilterParams {
    pub is_active: Option<bool>,
    pub protocol: Option<String>,
    pub search: Option<String>,
    pub tags: Vec<String>,
}

/// Filters of a node's health history.
#[derive(Debug, Default)]
pub struct HealthFilterParams {
    pub status: Option<String>,
    pub since: Option<String>,
}

/// The window, in hours, of a node's health statistics.
#[derive(Debug, Default)]
pub struct HealthStatsParams {
    pub hours: Option<i64>,
}

/// Filters of the administrator's node listing.
#[derive(Debug, Default)]
pub struct AdminNodeFilterParams {
    pub is_active: Option<bool>,
    pub is_approved: Option<bool>,
    pub protocol: Option<String>,
    pub search: Option<String>,
    pub tag: Option<String>,
    pub tags: Option<Vec<String>>,
}

/// An administrator's login.
#[derive(Debug)]
pub struct AdminLoginRequest {
    pub password: String,
}

impl AdminLoginRequest {
    pub fn validate(&self) -> (r: Result<(), AppError>)
        ensures
            check_view(r) == non_empty_check("password"@, self.password@, 255),
    {
        validate_non_empty("password", self.password.as_str(), 255)
    }
}

/// The session granted by a login.
#[derive(Debug)]
pub struct AdminLoginResponse {
    pub token: String,
    pub expires_at: String,
}

/// One health check of a node, as listed.
#[derive(Debug)]
pub struct HealthRecordResponse {
    pub id: i32,
    pub node_id: i32,
    pub status: String,
    pub response_time: Option<i32>,
    pub error_message: Option<String>,
    pub checked_at: String,
}

/// The result of probing a node.
#[derive(Debug)]
pub struct ProbeOutcome {
    pub status: String,
    pub is_active: bool,
    pub response_time: Option<i32>,
    pub error_message: Option<String>,
}

/// The monitor's settings.
#[derive(Debug)]
pub struct AppConfig {
    pub admin_password: String,
    pub token_ttl_seconds: u64,
    pub health_retention_days: i64,
    pub ring_granularity_seconds: u32,
    pub ring_window_hours: i64,
}

impl AppConfig {
    /// The settings from the values of `ADMIN_PASSWORD`, `TOKEN_TTL_SECONDS` and
    /// `HEALTH_RETENTION_DAYS`, each possibly unset; unset or unparsable values fall back to
    /// `change-me`, 86400 and 30. Health rings have 15-minute buckets over 24 hours.
    pub fn from_vars(
        admin_password: Option<String>,
        token_ttl_seconds: Option<String>,
        health_retention_days: Option<String>,
    ) -> (r: Self)
        ensures
            r.admin_password@ == match admin_password {
                Some(p) => p@,
                None => "change-me"@,
            },
            r.token_ttl_seconds == match token_ttl_seconds {
                Some(t) => match parse_u64_spec(t@, 10) {
                    Some(v) => v,
                    None => 86400,
                },
                None => 86400,
            },
            r.health_retention_days == match health_retention_days {
                Some(t) => match parse_i64_spec(t@) {
                    Some(v) => v,
                    None => 30,
                },
                None => 30,
            },
            r.ring_granularity_seconds == 900,
            r.ring_window_hours == 24,
    {
        let admin_password = match admin_password {
            Some(p) => p,
            None => String::from_str("change-me"),
        };
        let token_ttl_seconds = match token_ttl_seconds {
            Some(t) => match parse_u64_radix(t.as_str(), 10) {
                Some(v) => v,
                None => 86_400,
            },
            None => 86_400,
        };
        let health_retention_days = match health_retention_days {
            Some(t) => match parse_i64(t.as_str()) {
                Some(v) => v,
                None => 30,
            },
            None => 30,
        };
        AppConfig {
            admin_password,
            token_ttl_seconds,
            health_retention_days,
            ring_granularity_seconds: 60 * 15,
            ring_window_hours: 24,
        }
    }
}

/// The key under which an administrator session is stored.
pub fn session_key(token: &str) -> (r: String)
    ensures
        r@ == "admin-session:"@ + token@,
{
    let mut r = String::from_str("admin-session:");
    r.append(token);
    r
}

/// Admits a login only with the configured password.
pub fn check_admin_password(password: &str, config: &AppConfig) -> (r: Result<(), AppError>)
    ensures
        password@ == config.admin_password@ ==> r is Ok,
        password@ != config.admin_password@ ==> (r matches Err(e) && e@ == AppErrorView::Unauthorized(
            "invalid password"@,
        )),
{
    if crate::text::eq_str(password, config.admin_password.as_str()) {
        Ok(())
    } else {
        Err(AppError::Unauthorized(String::from_str("invalid password")))
    }
}

/// The `Authorization` header as the request carries it: absent, not visible ASCII, or text.
pub enum AuthorizationHeader {
    Missing,
    NotText,
    Text(String),
}

/// The token of a `Bearer` authorization.
pub fn bearer_token(header: &AuthorizationHeader) -> (r: Result<String, AppError>)
    ensures
        header is Missing ==> (r matches Err(e) && e@ == AppErrorView::Unauthorized(
            "missing authorization header"@,
        )),
        header is NotText ==> (r matches Err(e) && e@ == AppErrorView::Unauthorized(
            "invalid authorization header"@,
        )),
        header matches AuthorizationHeader::Text(v) ==> if crate::text::occurs_at(v@, "Bearer "@, 0) {
            r matches Ok(t) && t@ == v@.subrange(7, v@.len() as int)
        } else {
            r matches Err(e) && e@ == AppErrorView::Unauthorized("invalid authorization format"@)
        },
{
    match header {
        AuthorizationHeader::Missing => Err(
            AppError::Unauthorized(String::from_str("missing authorization header")),
        ),
        AuthorizationHeader::NotText => Err(
            AppError::Unauthorized(String::from_str("invalid authorization header")),
        ),
        AuthorizationHeader::Text(v) => {
            let chars = crate::text::chars_of(v.as_str());
            let prefix = crate::text::chars_of("Bearer ");
            proof {
                reveal_strlit("Bearer ");
            }
            if crate::text::matches_at(&chars, &prefix, 0) {
                Ok(crate::text::string_of_range(&chars, 7, chars.len()))
            } else {
                Err(AppError::Unauthorized(String::from_str("invalid authorization format")))
            }
        },
    }
}


/// How a node's endpoint is probed.
#[derive(Debug, PartialEq, Eq)]
pub enum ProbeMethod {
    /// An HTTP(S) request, with this URL scheme.
    Http(String),
    /// A plain TCP connection.
    Socket,
    /// No probe: outbound UDP is not available.
    UdpUnsupported,
}

pub enum ProbeMethodView {
    Http(Seq<char>),
    Socket,
    UdpUnsupported,
}

impl View for ProbeMethod {
    type V = ProbeMethodView;

    open spec fn view(&self) -> ProbeMethodView {
        match self {
            ProbeMethod::Http(s) => ProbeMethodView::Http(s@),
            ProbeMethod::Socket => ProbeMethodView::Socket,
            ProbeMethod::UdpUnsupported => ProbeMethodView::UdpUnsupported,
        }
    }
}

/// The probe of a node at `port` speaking `protocol` (in any ASCII case): `ws` and `wss` by
/// HTTP and HTTPS, `udp` not at all, anything else by TCP. A port outside 1..=65535 is refused.
pub open spec fn probe_method_spec(port: int, protocol: Seq<char>) -> Result<ProbeMethodView, AppErrorView> {
    if !(1 <= port <= 65535) {
        Err(AppErrorView::BadRequest("port must be between 1 and 65535"@))
    } else if crate::text::ascii_lower(protocol) == "ws"@ {
        Ok(ProbeMethodView::Http("http"@))
    } else if crate::text::ascii_lower(protocol) == "wss"@ {
        Ok(ProbeMethodView::Http("https"@))
    } else if crate::text::ascii_lower(protocol) == "udp"@ {
        Ok(ProbeMethodView::UdpUnsupported)
    } else {
        Ok(ProbeMethodView::Socket)
    }
}

pub fn probe_method(port: i32, protocol: &str) -> (r: Result<ProbeMethod, AppError>)
    ensures
        match r {
            Ok(m) => probe_method_spec(port as int, protocol@) == Ok::<_, AppErrorView>(m@),
            Err(e) => probe_method_spec(port as int, protocol@) == Err::<ProbeMethodView, _>(e@),
        },
{
    if !(1 <= port && port <= 65_535) {
        return Err(AppError::BadRequest(String::from_str("port must be between 1 and 65535")));
    }
    let lower = crate::text::to_ascii_lowercase(protocol);
    if crate::text::eq_str(lower.as_str(), "ws") {
        Ok(ProbeMethod::Http(String::from_str("http")))
    } else if crate::text::eq_str(lower.as_str(), "wss") {
        Ok(ProbeMethod::Http(String::from_str("https")))
    } else if crate::text::eq_str(lower.as_str(), "udp") {
        Ok(ProbeMethod::UdpUnsupported)
    } else {
        Ok(ProbeMethod::Socket)
    }
}

/// The outcome reported for a UDP node, which cannot be probed.
pub fn udp_unsupported_outcome() -> (r: ProbeOutcome)
    ensures
        r.status@ == "unsupported"@,
        !r.is_active,
        r.response_time is None,
        r.error_message.deep_view() == Some(
            "Cloudflare Workers does not support outbound UDP probes"@,
        ),
{
    ProbeOutcome {
        status: String::from_str("unsupported"),
        is_active: false,
        response_time: None,
        error_message: Some(String::from_str("Cloudflare Workers does not support outbound UDP probes")),
    }
}

/// The outcome of a probe that reached the node after `elapsed_ms` milliseconds; the time is
/// kept as Rust's `as i32` keeps it.
pub fn healthy_outcome(elapsed_ms: u64, note: Option<String>) -> (r: ProbeOutcome)
    ensures
        r.status@ == "healthy"@,
        r.is_active,
        r.response_time == Some(elapsed_ms as i32),
        r.error_message == note,
{
    ProbeOutcome {
        status: String::from_str("healthy"),
        is_active: true,
        response_time: Some(#[verifier::truncate] (elapsed_ms as i32)),
        error_message: note,
    }
}

/// The outcome of a probe that did not reach the node.
pub fn unhealthy_outcome(error_message: Option<String>) -> (r: ProbeOutcome)
    ensures
        r.status@ == "unhealthy"@,
        !r.is_active,
        r.response_time is None,
        r.error_message == error_message,
{
    ProbeOutcome {
        status: String::from_str("unhealthy"),
        is_active: false,
        response_time: None,
        error_message,
    }
}

/// The paths an HTTP probe tries, in order.
pub fn http_probe_paths() -> (r: Vec<String>)
    ensures
        r.deep_view() == seq!["/connect"@, "/"@],
{
    let mut r: Vec<String> = Vec::new();
    r.push(String::from_str("/connect"));
    r.push(String::from_str("/"));
    assert(r.deep_view() =~= seq!["/connect"@, "/"@]);
    r
}

/// The URL an HTTP probe requests: `scheme://host:port` followed by `path`.
pub fn probe_url(scheme: &str, host: &str, port: i32, path: &str) -> (r: String)
    ensures
        r@ == scheme@ + "://"@ + host@ + ":"@ + dec_int(port as int) + path@,
{
    let mut r = String::from_str(scheme);
    r.append("://");
    r.append(host);
    r.append(":");
    push_dec_i64(&mut r, port as i64);
    r.append(path);
    r
}

/// The note of an HTTP probe answered with `status`: `HTTP status`.
pub fn http_status_note(status: u16) -> (r: String)
    ensures
        r@ == "HTTP "@ + dec_nat(status as nat),
{
    let mut r = String::from_str("HTTP ");
    push_dec_u64(&mut r, status as u64);
    r
}

/// The error of a failed HTTP probe: `url: error`.
pub fn probe_failure_note(url: &str, error: &str) -> (r: String)
    ensures
        r@ == url@ + ": "@ + error@,
{
    let mut r = String::from_str(url);
    r.append(": ");
    r.append(error);
    r
}


/// A token handed out at login passes the admin check's header test: the header
/// `Bearer <token>` yields the token, which is then looked up under the same key it was stored
/// under at login (`session_key`).
pub proof fn lemma_issued_token_accepted(token: Seq<char>)
    ensures
        crate::text::occurs_at("Bearer "@ + token, "Bearer "@, 0),
        ("Bearer "@ + token).subrange(7, ("Bearer "@ + token).len() as int) == token,
{
    reveal_strlit("Bearer ");
    let h = "Bearer "@ + token;
    assert(h.subrange(0, 7) =~= "Bearer "@);
    assert(h.subrange(7, h.len() as int) =~= token);
}
} // verus!
