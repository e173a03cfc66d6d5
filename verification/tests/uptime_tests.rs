use easytier::nodes::{create_conflict, plan_node_insert, update_conflict};
use easytier::nodes::{
    build_health_filters, build_node_filters, build_ring, connection_figures, empty_to_none,
    health_counts, node_address, normalize_filter_tags, normalize_tags, placeholders,
    plan_node_update, status_is_healthy, HealthRecordRow, NodeDetails, SharedNodeRow, SqlParam,
};
use easytier::uptime::{
    bearer_token, check_admin_password, healthy_outcome, http_probe_paths, http_status_note,
    page_window, probe_failure_note, probe_method, probe_url, session_key,
    udp_unsupported_outcome, unhealthy_outcome, validate_node_payload, validate_non_empty,
    validate_optional, AdminLoginRequest, ApiResponse, AppConfig, AppError, AuthorizationHeader,
    CreateNodeRequest, HealthFilterParams, NodeFilterParams, PaginationParams, ProbeMethod,
    UpdateNodeRequest,
};

fn request() -> CreateNodeRequest {
    CreateNodeRequest {
        name: "node".to_string(),
        host: "example.com".to_string(),
        port: 11010,
        protocol: "tcp".to_string(),
        description: Some("desc".to_string()),
        max_connections: 10,
        allow_relay: true,
        network_name: "net".to_string(),
        network_secret: None,
        mail: Some("a@b.c".to_string()),
    }
}

#[test]
fn api_responses() {
    let ok = ApiResponse::success(5);
    assert!(ok.success && ok.data == Some(5) && ok.error.is_none());
    let err: ApiResponse<i32> = ApiResponse::error("bad".to_string());
    assert!(!err.success && err.error.as_deref() == Some("bad"));
    let msg: ApiResponse<i32> = ApiResponse::message("done".to_string());
    assert!(msg.success && msg.message.as_deref() == Some("done") && msg.data.is_none());
}

#[test]
fn pagination() {
    let p = PaginationParams { page: Some(0), per_page: Some(500) };
    assert_eq!(p.page(), 1);
    assert_eq!(p.per_page(20, 200), 200);
    let p = PaginationParams { page: None, per_page: None };
    assert_eq!(p.per_page(20, 200), 20);
    let p = PaginationParams { page: Some(3), per_page: Some(0) };
    assert_eq!((p.page(), p.per_page(20, 200)), (3, 1));
    assert_eq!(page_window(3, 20, 45), (40, 3));
    assert_eq!(page_window(1, 20, 0), (0, 0));
    assert_eq!(page_window(1, 20, 40), (0, 2));
}

#[test]
fn field_validation() {
    assert_eq!(
        validate_non_empty("name", "  ", 10),
        Err(AppError::BadRequest("name is required".to_string()))
    );
    assert_eq!(
        validate_non_empty("name", "abcdef", 5),
        Err(AppError::BadRequest("name must be at most 5 characters".to_string()))
    );
    assert_eq!(validate_non_empty("name", " abcde ", 5), Ok(()));
    // the limit counts bytes
    assert!(validate_non_empty("name", "ééé", 5).is_err());
    assert_eq!(validate_optional("mail", None, 1), Ok(()));
    assert_eq!(
        validate_optional("mail", Some("abc"), 2),
        Err(AppError::BadRequest("mail must be at most 2 characters".to_string()))
    );
}

#[test]
fn node_payload_validation_reports_the_first_failure() {
    assert_eq!(request().validate(), Ok(()));
    let mut r = request();
    r.port = 0;
    r.max_connections = 0;
    assert_eq!(
        r.validate(),
        Err(AppError::BadRequest("port must be between 1 and 65535".to_string()))
    );
    r.port = 1;
    assert_eq!(
        r.validate(),
        Err(AppError::BadRequest("max_connections must be between 1 and 10000".to_string()))
    );
    assert_eq!(
        validate_node_payload("", "", 0, "", None, 0, "", None, None),
        Err(AppError::BadRequest("name is required".to_string()))
    );
}

#[test]
fn update_validation() {
    assert_eq!(UpdateNodeRequest::default().validate(), Ok(()));
    let r = UpdateNodeRequest { name: Some(" ".to_string()), ..Default::default() };
    assert_eq!(r.validate(), Err(AppError::BadRequest("name is required".to_string())));
    let r = UpdateNodeRequest { port: Some(70000), ..Default::default() };
    assert_eq!(
        r.validate(),
        Err(AppError::BadRequest("port must be between 1 and 65535".to_string()))
    );
}

#[test]
fn login_validation_and_password() {
    assert!(AdminLoginRequest { password: "x".to_string() }.validate().is_ok());
    assert!(AdminLoginRequest { password: " ".to_string() }.validate().is_err());
    let config = AppConfig::from_vars(None, Some("60".to_string()), Some("x".to_string()));
    assert_eq!(config.admin_password, "change-me");
    assert_eq!(config.token_ttl_seconds, 60);
    assert_eq!(config.health_retention_days, 30);
    assert_eq!(config.ring_granularity_seconds, 900);
    assert_eq!(config.ring_window_hours, 24);
    assert_eq!(check_admin_password("change-me", &config), Ok(()));
    assert_eq!(
        check_admin_password("nope", &config),
        Err(AppError::Unauthorized("invalid password".to_string()))
    );
    assert_eq!(session_key("t1"), "admin-session:t1");
}

#[test]
fn bearer_tokens() {
    assert_eq!(
        bearer_token(&AuthorizationHeader::Text("Bearer abc".to_string())),
        Ok("abc".to_string())
    );
    assert_eq!(
        bearer_token(&AuthorizationHeader::Text("Basic abc".to_string())),
        Err(AppError::Unauthorized("invalid authorization format".to_string()))
    );
    assert_eq!(
        bearer_token(&AuthorizationHeader::Missing),
        Err(AppError::Unauthorized("missing authorization header".to_string()))
    );
    assert_eq!(
        bearer_token(&AuthorizationHeader::NotText),
        Err(AppError::Unauthorized("invalid authorization header".to_string()))
    );
}

#[test]
fn probe_methods_and_outcomes() {
    assert_eq!(probe_method(80, "WS"), Ok(ProbeMethod::Http("http".to_string())));
    assert_eq!(probe_method(443, "wss"), Ok(ProbeMethod::Http("https".to_string())));
    assert_eq!(probe_method(1, "Udp"), Ok(ProbeMethod::UdpUnsupported));
    assert_eq!(probe_method(1, "quic"), Ok(ProbeMethod::Socket));
    assert_eq!(
        probe_method(0, "tcp"),
        Err(AppError::BadRequest("port must be between 1 and 65535".to_string()))
    );
    let u = udp_unsupported_outcome();
    assert_eq!(u.status, "unsupported");
    assert!(!u.is_active);
    let h = healthy_outcome(12, Some(http_status_note(204)));
    assert_eq!((h.status.as_str(), h.response_time), ("healthy", Some(12)));
    assert_eq!(h.error_message.as_deref(), Some("HTTP 204"));
    let f = unhealthy_outcome(Some(probe_failure_note("http://h:1/", "refused")));
    assert_eq!(f.error_message.as_deref(), Some("http://h:1/: refused"));
    assert_eq!(http_probe_paths(), vec!["/connect".to_string(), "/".to_string()]);
    assert_eq!(probe_url("https", "h", 443, "/connect"), "https://h:443/connect");
}

#[test]
fn tags_are_trimmed_sorted_and_unique() {
    let tags = vec![" b ".to_string(), "a".to_string(), "b".to_string(), "  ".to_string()];
    assert_eq!(normalize_tags(&tags), vec!["a".to_string(), "b".to_string()]);
    assert_eq!(
        normalize_filter_tags(Some("c".to_string()), vec!["a".to_string()]),
        vec!["a".to_string(), "c".to_string()]
    );
    let once = normalize_tags(&tags);
    assert_eq!(normalize_tags(&once), once);
}

#[test]
fn sql_helpers() {
    assert_eq!(placeholders(0), "");
    assert_eq!(placeholders(3), "?, ?, ?");
    assert_eq!(empty_to_none(Some("  x ".to_string())), Some("x".to_string()));
    assert_eq!(empty_to_none(Some("   ".to_string())), None);
    assert_eq!(empty_to_none(None), None);
}

#[test]
fn node_filters() {
    let (sql, params) = build_node_filters(&NodeFilterParams::default(), false);
    assert_eq!(sql, "");
    assert!(params.is_empty());
    let filters = NodeFilterParams {
        is_active: Some(true),
        protocol: Some("tcp".to_string()),
        search: Some(" abc ".to_string()),
        tags: vec!["x".to_string(), "y".to_string()],
    };
    let (sql, params) = build_node_filters(&filters, true);
    assert_eq!(
        sql,
        " WHERE n.is_approved = 1 AND n.is_active = ? AND LOWER(n.protocol) = LOWER(?) AND (n.name LIKE ? OR n.host LIKE ? OR COALESCE(n.description, '') LIKE ?) AND n.id IN (SELECT DISTINCT node_id FROM node_tags WHERE tag IN (?, ?))"
    );
    assert_eq!(
        params,
        vec![
            SqlParam::Int(1),
            SqlParam::Text("tcp".to_string()),
            SqlParam::Text("%abc%".to_string()),
            SqlParam::Text("%abc%".to_string()),
            SqlParam::Text("%abc%".to_string()),
            SqlParam::Text("x".to_string()),
            SqlParam::Text("y".to_string()),
        ]
    );
    let (sql, params) = build_health_filters(7, &HealthFilterParams::default());
    assert!(sql.starts_with(" WHERE "));
    assert_eq!(params[0], SqlParam::Int(7));
}

fn row() -> SharedNodeRow {
    SharedNodeRow {
        id: 3,
        name: "n".to_string(),
        host: "h".to_string(),
        port: 11010,
        protocol: "tcp".to_string(),
        version: Some(" ".to_string()),
        allow_relay: 1,
        network_name: Some("net".to_string()),
        network_secret: Some("s".to_string()),
        description: None,
        max_connections: 4,
        current_connections: 1,
        is_active: 1,
        is_approved: 0,
        qq_number: None,
        wechat: None,
        mail: Some("m".to_string()),
        created_at: "c".to_string(),
        updated_at: "u".to_string(),
    }
}

#[test]
fn update_plans_keep_what_is_not_given() {
    let plan = plan_node_update(
        &row(),
        &UpdateNodeRequest { port: Some(1), is_active: Some(false), ..Default::default() },
    );
    assert_eq!(plan.name, "n");
    assert_eq!(plan.port, 1);
    assert!(!plan.is_active);
    assert!(plan.allow_relay);
    assert_eq!(plan.description, "");
    assert_eq!(plan.mail, "m");
}

#[test]
fn node_addresses_and_connections() {
    assert_eq!(node_address("tcp", "h", 11010), "tcp://h:11010");
    assert_eq!(node_address("udp", "h", -1), "udp://h:-1");
    assert_eq!(connection_figures(1, 4, true), (25, 100));
    assert_eq!(connection_figures(1, 0, true), (0, 0));
    assert_eq!(connection_figures(1, 4, false), (1, 4));
    assert!(status_is_healthy("HEALTHY"));
    assert!(!status_is_healthy("unhealthy"));
}

fn record(status: &str, response_time: Option<i32>, checked_at: &str) -> HealthRecordRow {
    HealthRecordRow {
        id: 1,
        node_id: 3,
        status: status.to_string(),
        response_time,
        error_message: None,
        checked_at: checked_at.to_string(),
    }
}

#[test]
fn health_counts_and_rings() {
    let records = vec![
        record("healthy", Some(10), "2024-01-01T00:20:00Z"),
        record("unhealthy", None, "2024-01-01T00:10:00Z"),
        record("Healthy", Some(30), "2023-12-31T23:50:00Z"),
    ];
    let counts = health_counts(&records);
    assert_eq!((counts.total_checks, counts.healthy_count, counts.unhealthy_count), (3, 2, 1));
    assert_eq!(counts.healthy_response_sum, 40);
    assert_eq!(counts.last_check_time.as_deref(), Some("2024-01-01T00:20:00Z"));

    let reference = 1_704_068_400; // 2024-01-01T00:20:00Z
    let (total, healthy) = build_ring(&records, reference, 900, 1);
    assert_eq!(total, vec![2, 0, 1, 0]);
    assert_eq!(healthy, vec![1, 0, 1, 0]);
}

#[test]
fn nodes_made_from_a_probe() {
    let probe = healthy_outcome(5, None);
    let node = NodeDetails::from_probe_at(&request(), &probe, "t0".to_string(), "t1".to_string());
    assert_eq!(node.id, 0);
    assert_eq!(node.address, "tcp://example.com:11010");
    assert_eq!((node.created_at.as_str(), node.updated_at.as_str()), ("t0", "t0"));
    assert_eq!(node.last_check_time.as_deref(), Some("t1"));
    assert_eq!(node.current_health_status.as_deref(), Some("healthy"));
    assert_eq!(node.network_name.as_deref(), Some("net"));
    assert!(node.is_active && !node.is_approved);
    let node = NodeDetails::from_probe(&request(), &unhealthy_outcome(None));
    assert_eq!(node.created_at, node.updated_at);
    assert!(!node.is_active);
    assert!(node.created_at.ends_with('Z'));
}

#[test]
fn node_conflicts_and_insert_values() {
    let msg = "a node with the same host, port and protocol already exists".to_string();
    assert_eq!(create_conflict(true), Err(AppError::Conflict(msg.clone())));
    assert_eq!(create_conflict(false), Ok(()));
    let moved = plan_node_update(&row(), &UpdateNodeRequest { port: Some(1), ..Default::default() });
    assert!(moved.changed_identity);
    assert_eq!(update_conflict(&moved, true), Err(AppError::Conflict(msg)));
    assert_eq!(update_conflict(&moved, false), Ok(()));
    let kept = plan_node_update(&row(), &UpdateNodeRequest::default());
    assert_eq!(update_conflict(&kept, true), Ok(()));

    let v = plan_node_insert(&request(), "t".to_string());
    assert_eq!(v.network_secret, "");
    assert_eq!(v.description, "desc");
    assert_eq!(v.mail, "a@b.c");
    assert!(v.version.is_none() && !v.is_active && !v.is_approved);
    assert_eq!(v.current_connections, 0);
    assert_eq!((v.created_at.as_str(), v.updated_at.as_str()), ("t", "t"));
}

#[test]
fn issued_tokens_pass_the_header_check() {
    let token = "6d657368-7469-6572-0123-456789abcdef";
    let header = AuthorizationHeader::Text(format!("Bearer {token}"));
    assert_eq!(bearer_token(&header), Ok(token.to_string()));
    assert_eq!(session_key(token), format!("admin-session:{token}"));
}
