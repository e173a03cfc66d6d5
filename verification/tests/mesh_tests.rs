use easytier::mesh::{
    build_easytier_response, connect_plan, convert_remote_error, convert_rpc_error,
    default_hostname, default_mesh_network_config, find_network_info, internal_error,
    is_meshtier_instance, meshtier_ids_to_clear, online_poll, parse_zerotier_base_url,
    pick_admin_identity, pick_hostname, uuid_to_zerotier_id, zerotier_api_url,
    zerotier_id_to_uuid, ConnectPlan, HttpError, MeshStatus, MyNodeInfo, NetworkDefaultApi,
    NetworkingMethod, OnlinePoll, RemoteError, RpcErrorKind, RunningInfo, SessionInfo,
};
use easytier::uuids::{parse_uuid, uuid_to_text};

#[test]
fn codec_roundtrip_is_lossless() {
    let sample = "fb8afe3192e4d274";
    let uuid = zerotier_id_to_uuid(sample).unwrap();
    let decoded = uuid_to_zerotier_id(&uuid_to_text(uuid)).unwrap();
    assert_eq!(decoded, sample);
}

#[test]
fn codec_rejects_invalid_len() {
    assert!(zerotier_id_to_uuid("abc").is_err());
}

#[test]
fn zerotier_ids_become_meshtier_uuids() {
    let id = zerotier_id_to_uuid("fb8afe3192e4d274").unwrap();
    assert_eq!(uuid_to_text(id), "6d657368-7469-6572-fb8a-fe3192e4d274");
    assert!(is_meshtier_instance(&id));
    assert_eq!(uuid::Uuid::from_bytes(id).to_string(), uuid_to_text(id));
}

#[test]
fn zerotier_id_errors() {
    assert_eq!(
        zerotier_id_to_uuid("abc").unwrap_err(),
        "invalid ZeroTier id length: expected 16 hex chars, got 3"
    );
    assert_eq!(
        zerotier_id_to_uuid("zzzzzzzzzzzzzzzz").unwrap_err(),
        "invalid ZeroTier hex id: zzzzzzzzzzzzzzzz"
    );
    // sixteen bytes, but not sixteen characters
    assert_eq!(
        zerotier_id_to_uuid("ééééééé12").unwrap_err(),
        "invalid ZeroTier hex id: ééééééé12"
    );
    // upper case digits parse too, and come back in lower case
    let id = zerotier_id_to_uuid("FB8AFE3192E4D274").unwrap();
    assert_eq!(uuid_to_zerotier_id(&uuid_to_text(id)).unwrap(), "fb8afe3192e4d274");
}

#[test]
fn instance_id_errors() {
    assert!(uuid_to_zerotier_id("not-a-uuid")
        .unwrap_err()
        .starts_with("invalid uuid: "));
    assert_eq!(
        uuid_to_zerotier_id("550e8400-e29b-41d4-a716-446655440000").unwrap_err(),
        "uuid is not encoded by meshtier zerotier codec"
    );
    // the simple form parses too
    assert_eq!(
        uuid_to_zerotier_id("6d6573687469657200000000000000ff").unwrap(),
        "00000000000000ff"
    );
}

#[test]
fn parsing_an_instance_id_gives_its_bytes() {
    let id = zerotier_id_to_uuid("0123456789abcdef").unwrap();
    assert_eq!(parse_uuid(&uuid_to_text(id)).unwrap(), id);
}

fn meshtier_text(zt: &str) -> String {
    uuid_to_text(zerotier_id_to_uuid(zt).unwrap())
}

#[test]
fn meshtier_ids_are_collected_once_in_order() {
    let a = meshtier_text("00000000000000aa");
    let b = meshtier_text("0000000000000001");
    let running = vec![a.clone(), "550e8400-e29b-41d4-a716-446655440000".to_string(), "junk".to_string()];
    let saved = vec![b.clone(), a.clone()];
    let ids = meshtier_ids_to_clear(&running, &saved).unwrap();
    let texts: Vec<String> = ids.iter().map(|i| uuid_to_text(*i)).collect();
    assert_eq!(texts, vec![b, a]);
    assert!(meshtier_ids_to_clear(&vec!["junk".to_string()], &Vec::new()).is_none());
}

fn info(running: bool, hostname: Option<&str>, ip: Option<u32>, error: Option<&str>) -> RunningInfo {
    RunningInfo {
        running,
        error_msg: error.map(|e| e.to_string()),
        my_node_info: hostname.map(|h| MyNodeInfo { hostname: h.to_string(), virtual_ipv4: ip }),
    }
}

#[test]
fn easytier_responses() {
    let id = zerotier_id_to_uuid("fb8afe3192e4d274").unwrap();
    let r = build_easytier_response(id, &info(true, Some("box"), Some(0x0a7e_0001), None));
    assert_eq!(r.id, "6d657368-7469-6572-fb8a-fe3192e4d274");
    assert_eq!(r.name, "box");
    assert_eq!(r.status, MeshStatus::Online);
    assert_eq!(r.ip.as_deref(), Some("10.126.0.1"));
    let r = build_easytier_response(id, &info(false, Some("  "), None, None));
    assert_eq!(r.name, "easytier");
    assert_eq!(r.status, MeshStatus::Offline);
    assert_eq!(r.ip, None);
    let r = build_easytier_response(id, &info(true, None, None, None));
    assert_eq!(r.name, "easytier");
}

#[test]
fn network_info_is_found_by_id_or_else_first() {
    let id = zerotier_id_to_uuid("fb8afe3192e4d274").unwrap();
    let key = uuid_to_text(id);
    let entries = vec![
        ("other".to_string(), info(true, Some("a"), None, None)),
        (key.clone(), info(true, Some("b"), None, None)),
    ];
    assert_eq!(find_network_info(&entries, id), Some(1));
    let entries = vec![("other".to_string(), info(true, Some("a"), None, None))];
    assert_eq!(find_network_info(&entries, id), Some(0));
    assert_eq!(find_network_info(&Vec::new(), id), None);
}

#[test]
fn online_poll_decisions() {
    let id = zerotier_id_to_uuid("fb8afe3192e4d274").unwrap();
    assert_eq!(online_poll(id, None), OnlinePoll::Wait);
    assert_eq!(online_poll(id, Some(&Vec::new())), OnlinePoll::Wait);
    let starting = vec![("x".to_string(), info(false, None, None, Some("  ")))];
    assert_eq!(online_poll(id, Some(&starting)), OnlinePoll::Wait);
    let failed = vec![("x".to_string(), info(false, None, None, Some("bad config")))];
    assert_eq!(
        online_poll(id, Some(&failed)),
        OnlinePoll::Failed(HttpError {
            status: 500,
            message: "easytier instance startup failed: bad config".to_string()
        })
    );
    let up = vec![("x".to_string(), info(true, Some("n"), Some(0xc0a8_0102), None))];
    match online_poll(id, Some(&up)) {
        OnlinePoll::Online(r) => assert_eq!(r.ip.as_deref(), Some("192.168.1.2")),
        other => panic!("unexpected {other:?}"),
    }
}

#[test]
fn connect_keeps_online_and_reset() {
    assert_eq!(connect_plan(Some(MeshStatus::Online)), ConnectPlan::UseCurrent);
    assert_eq!(connect_plan(Some(MeshStatus::Reset)), ConnectPlan::UseCurrent);
    assert_eq!(connect_plan(Some(MeshStatus::Offline)), ConnectPlan::RequestOnline);
    assert_eq!(connect_plan(None), ConnectPlan::RequestOnline);
}

#[test]
fn admin_identity_is_the_first_admin_machine() {
    let m1 = zerotier_id_to_uuid("00000000000000ff").unwrap();
    let m2 = zerotier_id_to_uuid("0000000000000001").unwrap();
    let sessions = vec![
        SessionInfo { user_id: 1, machine_id: m1, token: "admin".to_string() },
        SessionInfo { user_id: 2, machine_id: m2, token: "user".to_string() },
        SessionInfo { user_id: 3, machine_id: m2, token: "admin".to_string() },
        SessionInfo { user_id: 4, machine_id: m2, token: "admin".to_string() },
    ];
    assert_eq!(pick_admin_identity(&sessions).unwrap(), (3, m2));
    let none = vec![SessionInfo { user_id: 2, machine_id: m2, token: "user".to_string() }];
    let e = pick_admin_identity(&none).unwrap_err();
    assert_eq!(e.status, 503);
    assert_eq!(e.message, "no online easytier-core session with token 'admin'");
}

#[test]
fn hostname_choice() {
    assert_eq!(pick_hostname(" box ", &None, &None), "box");
    assert_eq!(pick_hostname("", &Some(" h ".to_string()), &Some("c".to_string())), "h");
    assert_eq!(pick_hostname("", &Some("  ".to_string()), &Some("c".to_string())), "mesh-node");
    assert_eq!(pick_hostname("", &None, &Some(" c ".to_string())), "c");
    assert_eq!(pick_hostname("\t", &None, &None), "mesh-node");
    assert!(!default_hostname(&None, &None).is_empty());
}

#[test]
fn mesh_network_config_defaults() {
    let id = zerotier_id_to_uuid("fb8afe3192e4d274").unwrap();
    let cfg = default_mesh_network_config(id, "fb8afe3192e4d274", "fb8afe3192e4d274", "node".to_string());
    assert_eq!(cfg.instance_id.as_deref(), Some("6d657368-7469-6572-fb8a-fe3192e4d274"));
    assert_eq!(cfg.dhcp, Some(true));
    assert_eq!(cfg.virtual_ipv4.as_deref(), Some(""));
    assert_eq!(cfg.network_length, Some(16));
    assert_eq!(cfg.hostname.as_deref(), Some("node"));
    assert_eq!(cfg.network_name.as_deref(), Some("fb8afe3192e4d274"));
    assert_eq!(cfg.network_secret.as_deref(), Some("fb8afe3192e4d274"));
    assert_eq!(cfg.networking_method, Some(NetworkingMethod::Manual));
    assert_eq!(cfg.peer_urls, vec!["wss://et.icewhale.io".to_string()]);
    assert_eq!(
        cfg.listener_urls,
        vec![
            "tcp://0.0.0.0:11010".to_string(),
            "udp://0.0.0.0:11010".to_string(),
            "ws://0.0.0.0:11011".to_string()
        ]
    );
    assert_eq!(cfg.latency_first, Some(true));
    assert_eq!(cfg.bind_device, Some(true));
    assert_eq!(cfg.multi_thread, Some(true));
    assert_eq!(cfg.disable_encryption, Some(true));
}

#[test]
fn error_answers() {
    assert_eq!(internal_error("x".to_string()).status, 500);
    assert_eq!(convert_rpc_error(RpcErrorKind::Execution, "e".to_string()).status, 400);
    assert_eq!(convert_rpc_error(RpcErrorKind::Timeout, "t".to_string()).status, 504);
    assert_eq!(convert_rpc_error(RpcErrorKind::Other, "o".to_string()).status, 502);
    let e = convert_remote_error(RemoteError::ClientNotFound);
    assert_eq!((e.status, e.message.as_str()), (404, "EasyTier client not found"));
    let e = convert_remote_error(RemoteError::NotFound("gone".to_string()));
    assert_eq!((e.status, e.message.as_str()), (404, "gone"));
    let e = convert_remote_error(RemoteError::Other("boom".to_string()));
    assert_eq!((e.status, e.message.as_str()), (500, "boom"));
    let e = convert_remote_error(RemoteError::Rpc(RpcErrorKind::Timeout, "late".to_string()));
    assert_eq!((e.status, e.message.as_str()), (504, "late"));
    let e = convert_remote_error(RemoteError::Persistent(HttpError { status: 409, message: "dup".to_string() }));
    assert_eq!((e.status, e.message.as_str()), (409, "dup"));
}

#[test]
fn user_id_needs_a_login() {
    assert_eq!(NetworkDefaultApi::get_user_id(Some(7)).unwrap(), 7);
    let e = NetworkDefaultApi::get_user_id(None).unwrap_err();
    assert_eq!((e.status, e.message.as_str()), (401, "No user id found"));
}

#[test]
fn zerotier_urls() {
    assert_eq!(parse_zerotier_base_url(&None).unwrap(), "http://localhost/");
    let e = parse_zerotier_base_url(&Some("not a url".to_string())).unwrap_err();
    assert_eq!(e.status, 500);
    assert!(e.message.starts_with("Invalid ZEROTIER_SERVICE_URL: "));
    assert_eq!(
        zerotier_api_url("http://localhost/", "/v2/zimaos/zt/info").unwrap(),
        "http://localhost/v2/zimaos/zt/info"
    );
    assert_eq!(
        zerotier_api_url("http://h:8080/base/", "//v2/x").unwrap(),
        "http://h:8080/base/v2/x"
    );
}

#[test]
fn instance_ids_roundtrip_through_zerotier_ids() {
    let text = "6d657368-7469-6572-0123-456789abcdef";
    let zt = uuid_to_zerotier_id(text).unwrap();
    assert_eq!(zt, "0123456789abcdef");
    let back = zerotier_id_to_uuid(&zt).unwrap();
    assert_eq!(uuid_to_text(back), text);
    assert!(uuid_to_zerotier_id("00000000-0000-0000-0000-000000000000").is_err());
}
